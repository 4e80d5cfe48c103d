//! The command-line client's own logic: reading question ids from the
//! arguments, building the request, choosing the session id, finding the
//! conversation's title in its transcript, and naming the transcript's
//! project directory.
use crate::ipc::types::{item_views, AskItem, AskItemView, IpcRequest, RequestView};
use crate::text::{chars_of, push_char, str_equal, string_of};
use crate::types::{opt_str_view, strs_view};
use vstd::prelude::*;
use vstd::string::StringExecFns;

verus! {

// ------------------------------------------------------------
// Question ids
// ------------------------------------------------------------

/// The characters with the Unicode White_Space property (the characters
/// `char::is_whitespace` accepts).
pub open spec fn is_white_space(c: char) -> bool {
    let u = c as int;
    ||| 0x09 <= u <= 0x0d
    ||| u == 0x20
    ||| u == 0x85
    ||| u == 0xa0
    ||| u == 0x1680
    ||| 0x2000 <= u <= 0x200a
    ||| u == 0x2028
    ||| u == 0x2029
    ||| u == 0x202f
    ||| u == 0x205f
    ||| u == 0x3000
}

/// Whether `c` is white space (see [`is_white_space`]).
pub fn is_white_space_char(c: char) -> (r: bool)
    ensures
        r == is_white_space(c),
{
    let u = c as u32;
    (0x09 <= u && u <= 0x0d) || u == 0x20 || u == 0x85 || u == 0xa0 || u == 0x1680 || (0x2000 <= u
        && u <= 0x200a) || u == 0x2028 || u == 0x2029 || u == 0x202f || u == 0x205f || u == 0x3000
}

/// `s` without its leading white space.
pub open spec fn strip_start(s: Seq<char>) -> Seq<char>
    decreases s.len(),
{
    if s.len() > 0 && is_white_space(s[0]) {
        strip_start(s.drop_first())
    } else {
        s
    }
}

/// `s` without its trailing white space.
pub open spec fn strip_end(s: Seq<char>) -> Seq<char>
    decreases s.len(),
{
    if s.len() > 0 && is_white_space(s.last()) {
        strip_end(s.drop_last())
    } else {
        s
    }
}

/// `s` without leading and trailing white space (what `str::trim` does).
pub open spec fn trim_ws(s: Seq<char>) -> Seq<char> {
    strip_end(strip_start(s))
}

/// The pieces of `s` between commas (what `str::split(',')` yields): one
/// more piece than there are commas.
pub open spec fn split_commas(s: Seq<char>) -> Seq<Seq<char>>
    decreases s.len(),
{
    if s.len() == 0 {
        seq![Seq::empty()]
    } else {
        let rest = split_commas(s.drop_last());
        if s.last() == ',' {
            rest.push(Seq::empty())
        } else {
            rest.update(rest.len() - 1, rest.last().push(s.last()))
        }
    }
}

/// The pieces of a split are never none.
proof fn lemma_split_commas_len(s: Seq<char>)
    ensures
        split_commas(s).len() >= 1,
    decreases s.len(),
{
    if s.len() > 0 {
        lemma_split_commas_len(s.drop_last());
    }
}

/// The trimmed pieces of `pieces` that are not empty.
pub open spec fn kept_ids(pieces: Seq<Seq<char>>) -> Seq<Seq<char>> {
    pieces.map_values(|p: Seq<char>| trim_ws(p)).filter(|p: Seq<char>| p.len() > 0)
}

/// The question ids written in one argument: the comma-separated pieces,
/// trimmed, without the empty ones.
pub open spec fn ids_in_arg(arg: Seq<char>) -> Seq<Seq<char>> {
    kept_ids(split_commas(arg))
}

/// The question ids written in the arguments, in order.
pub open spec fn ids_in_args(args: Seq<Seq<char>>) -> Seq<Seq<char>> {
    args.map_values(|a: Seq<char>| ids_in_arg(a)).flatten()
}

/// `s` without leading and trailing white space.
pub fn trim_chars(s: &Vec<char>) -> (t: Vec<char>)
    ensures
        t@ == trim_ws(s@),
{
    let n = s.len();
    let mut a: usize = 0;
    assert(s@.skip(0) =~= s@);
    while a < n && is_white_space_char(s[a])
        invariant
            n == s@.len(),
            0 <= a <= n,
            strip_start(s@) == strip_start(s@.skip(a as int)),
        decreases n - a,
    {
        proof {
            assert(s@.skip(a as int).drop_first() =~= s@.skip(a + 1));
        }
        a = a + 1;
    }
    proof {
        assert(strip_start(s@.skip(a as int)) == s@.skip(a as int));
    }
    let mut b: usize = n;
    while b > a && is_white_space_char(s[b - 1])
        invariant
            n == s@.len(),
            a <= b <= n,
            strip_start(s@) == s@.skip(a as int),
            strip_end(s@.skip(a as int)) == strip_end(s@.subrange(a as int, b as int)),
        decreases b,
    {
        proof {
            assert(s@.subrange(a as int, b as int).drop_last() =~= s@.subrange(a as int, b - 1));
        }
        b = b - 1;
    }
    proof {
        assert(s@.skip(a as int) =~= s@.subrange(a as int, n as int));
    }
    let mut t: Vec<char> = Vec::new();
    let mut k: usize = a;
    while k < b
        invariant
            a <= k <= b <= n,
            n == s@.len(),
            t@ == s@.subrange(a as int, k as int),
        decreases b - k,
    {
        t.push(s[k]);
        k = k + 1;
        assert(t@ =~= s@.subrange(a as int, k as int));
    }
    t
}

/// Appends the question ids written in `arg` (see [`ids_in_arg`]).
fn push_ids_in_arg(arg: &str, out: &mut Vec<String>)
    ensures
        strs_view(final(out)@) == strs_view(old(out)@) + ids_in_arg(arg@),
{
    let ghost start = strs_view(out@);
    let ghost f = |p: Seq<char>| trim_ws(p);
    let ghost keep = |p: Seq<char>| p.len() > 0;
    let cs = chars_of(arg);
    let n = cs.len();
    let mut done: Ghost<Seq<Seq<char>>> = Ghost(Seq::empty());
    let mut current: Vec<char> = Vec::new();
    let mut i: usize = 0;
    proof {
        assert(cs@.take(0) =~= Seq::<char>::empty());
        assert(split_commas(cs@.take(0)) =~= done@.push(current@));
        assert(done@.map_values(f).filter(keep) =~= Seq::<Seq<char>>::empty()) by {
            reveal(Seq::filter);
        }
        assert(strs_view(out@) =~= start + done@.map_values(f).filter(keep));
    }
    while i < n
        invariant
            n == cs@.len(),
            cs@ == arg@,
            0 <= i <= n,
            f == (|p: Seq<char>| trim_ws(p)),
            keep == (|p: Seq<char>| p.len() > 0),
            split_commas(cs@.take(i as int)) == done@.push(current@),
            strs_view(out@) == start + done@.map_values(f).filter(keep),
        decreases n - i,
    {
        let c = cs[i];
        proof {
            assert(cs@.take(i + 1).drop_last() =~= cs@.take(i as int));
            assert(cs@.take(i + 1).last() == c);
        }
        if c == ',' {
            let t = trim_chars(&current);
            proof {
                assert(done@.push(current@).map_values(f) =~= done@.map_values(f).push(f(current@)));
                done@.map_values(f).lemma_filter_push(f(current@), keep);
            }
            if t.len() > 0 {
                let ghost before = out@;
                let id = string_of(&t);
                out.push(id);
                assert(strs_view(out@) =~= strs_view(before).push(t@));
            }
            proof {
                done@ = done@.push(current@);
            }
            current = Vec::new();
            proof {
                assert(split_commas(cs@.take(i + 1)) =~= done@.push(current@));
            }
        } else {
            let ghost before = current@;
            current.push(c);
            proof {
                assert(split_commas(cs@.take(i + 1)) =~= done@.push(current@));
            }
        }
        i = i + 1;
    }
    let t = trim_chars(&current);
    proof {
        assert(cs@.take(n as int) =~= cs@);
        assert(done@.push(current@).map_values(f) =~= done@.map_values(f).push(f(current@)));
        done@.map_values(f).lemma_filter_push(f(current@), keep);
    }
    if t.len() > 0 {
        let ghost before = out@;
        let id = string_of(&t);
        out.push(id);
        assert(strs_view(out@) =~= strs_view(before).push(t@));
    }
    proof {
        assert(ids_in_arg(arg@) == done@.push(current@).map_values(f).filter(keep));
    }
}

/// The question ids written in the positional arguments: each argument may
/// hold several ids separated by commas; pieces are trimmed and empty ones
/// dropped.
pub fn parse_ids(positionals: &Vec<String>) -> (ids: Vec<String>)
    ensures
        strs_view(ids@) == ids_in_args(strs_view(positionals@)),
{
    let ghost args = strs_view(positionals@);
    let ghost g = |a: Seq<char>| ids_in_arg(a);
    let mut ids: Vec<String> = Vec::new();
    let n = positionals.len();
    let mut i: usize = 0;
    proof {
        assert(args.take(0).map_values(g).flatten() =~= Seq::<Seq<char>>::empty());
        assert(strs_view(ids@) =~= Seq::<Seq<char>>::empty());
    }
    while i < n
        invariant
            n == positionals@.len(),
            args == strs_view(positionals@),
            0 <= i <= n,
            g == (|a: Seq<char>| ids_in_arg(a)),
            strs_view(ids@) == args.take(i as int).map_values(g).flatten(),
        decreases n - i,
    {
        push_ids_in_arg(positionals[i].as_str(), &mut ids);
        proof {
            assert(args.take(i + 1) =~= args.take(i as int).push(args[i as int]));
            assert(args.take(i + 1).map_values(g) =~= args.take(i as int).map_values(g).push(g(args[i as int])));
            args.take(i as int).map_values(g).lemma_flatten_push(g(args[i as int]));
        }
        i = i + 1;
    }
    proof {
        assert(args.take(n as int) =~= args);
    }
    ids
}

// ------------------------------------------------------------
// Requests
// ------------------------------------------------------------

/// What the argument parser found besides the command: the positional
/// arguments, the `--any` flag, the `--timeout` value (zero when absent) and
/// the `--reason` option.
#[derive(Debug)]
pub struct CliArgs {
    pub positionals: Vec<String>,
    pub any: bool,
    pub timeout: i64,
    pub reason: Option<String>,
}

/// The command names.
pub open spec fn ask_cmd() -> Seq<char> {
    seq!['a', 's', 'k']
}

pub open spec fn wait_cmd() -> Seq<char> {
    seq!['w', 'a', 'i', 't']
}

pub open spec fn get_cmd() -> Seq<char> {
    seq!['g', 'e', 't']
}

pub open spec fn dismiss_cmd() -> Seq<char> {
    seq!['d', 'i', 's', 'm', 'i', 's', 's']
}

pub open spec fn open_cmd() -> Seq<char> {
    seq!['o', 'p', 'e', 'n']
}

pub open spec fn shutdown_cmd() -> Seq<char> {
    seq!['s', 'h', 'u', 't', 'd', 'o', 'w', 'n']
}

/// The request a command stands for, or `None` for an unknown command or an
/// ask without questions. An ask carries the questions and the title given;
/// a wait, get or dismiss carries the ids written in the positional
/// arguments; a wait waits for all unless `--any`, with a timeout only when
/// it is positive; a dismiss carries the reason.
pub open spec fn request_for(
    command: Seq<char>,
    args_positionals: Seq<Seq<char>>,
    any: bool,
    timeout: i64,
    reason: Option<Seq<char>>,
    sid: Seq<char>,
    items: Option<Seq<AskItemView>>,
    dn: Option<Seq<char>>,
) -> Option<RequestView> {
    let ids = ids_in_args(args_positionals);
    if command == ask_cmd() {
        match items {
            Some(it) => Some(RequestView::Ask(sid, dn, it)),
            None => None,
        }
    } else if command == wait_cmd() {
        Some(
            RequestView::Wait(
                sid,
                ids,
                !any,
                if timeout > 0 {
                    Some(timeout as u64)
                } else {
                    None
                },
            ),
        )
    } else if command == get_cmd() {
        Some(RequestView::Get(sid, ids))
    } else if command == dismiss_cmd() {
        Some(RequestView::Dismiss(sid, ids, reason))
    } else if command == open_cmd() {
        Some(RequestView::OpenUi)
    } else if command == shutdown_cmd() {
        Some(RequestView::Shutdown)
    } else {
        None
    }
}

/// The request for `command` (see [`request_for`]). `ask_items` are the
/// questions the ask argument holds (`None` when it is missing or is not a
/// JSON array of questions) and `display_name` the conversation's title; both
/// matter to an ask only.
pub fn build_request(
    command: &str,
    args: &CliArgs,
    session_id: &str,
    ask_items: Option<Vec<AskItem>>,
    display_name: Option<String>,
) -> (r: Option<IpcRequest>)
    ensures
        ({
            let expected = request_for(
                command@,
                strs_view(args.positionals@),
                args.any,
                args.timeout,
                opt_str_view(args.reason),
                session_id@,
                match ask_items {
                    Some(v) => Some(item_views(v@)),
                    None => None,
                },
                opt_str_view(display_name),
            );
            match r {
                Some(req) => expected == Some(req@),
                None => expected is None,
            }
        }),
{
    proof {
        reveal_strlit("ask");
        reveal_strlit("wait");
        reveal_strlit("get");
        reveal_strlit("dismiss");
        reveal_strlit("open");
        reveal_strlit("shutdown");
        assert("ask"@ =~= ask_cmd());
        assert("wait"@ =~= wait_cmd());
        assert("get"@ =~= get_cmd());
        assert("dismiss"@ =~= dismiss_cmd());
        assert("open"@ =~= open_cmd());
        assert("shutdown"@ =~= shutdown_cmd());
    }
    if str_equal(command, "ask") {
        match ask_items {
            Some(questions) => Some(
                IpcRequest::Ask { session_id: session_id.to_owned(), display_name, questions },
            ),
            None => None,
        }
    } else if str_equal(command, "wait") {
        let ids = parse_ids(&args.positionals);
        let require_all = !args.any;
        let timeout_secs = if args.timeout > 0 {
            Some(args.timeout as u64)
        } else {
            None
        };
        Some(IpcRequest::Wait { session_id: session_id.to_owned(), ids, require_all, timeout_secs })
    } else if str_equal(command, "get") {
        let ids = parse_ids(&args.positionals);
        Some(IpcRequest::Get { session_id: session_id.to_owned(), ids })
    } else if str_equal(command, "dismiss") {
        let ids = parse_ids(&args.positionals);
        let reason = match &args.reason {
            Some(x) => Some(x.clone()),
            None => None,
        };
        Some(IpcRequest::Dismiss { session_id: session_id.to_owned(), ids, reason })
    } else if str_equal(command, "open") {
        Some(IpcRequest::OpenUi)
    } else if str_equal(command, "shutdown") {
        Some(IpcRequest::Shutdown)
    } else {
        None
    }
}

/// How long, in milliseconds, the client keeps trying to reach a freshly
/// started application: five minutes for a wait, fifteen seconds otherwise.
pub fn post_spawn_timeout_ms(command: &str) -> (ms: u64)
    ensures
        ms == if command@ == wait_cmd() {
            300_000u64
        } else {
            15_000u64
        },
{
    proof {
        reveal_strlit("wait");
        assert("wait"@ =~= wait_cmd());
    }
    if str_equal(command, "wait") {
        300_000
    } else {
        15_000
    }
}

// ------------------------------------------------------------
// Session id
// ------------------------------------------------------------

/// The environment variables that may hold the session id, in the order
/// they are tried.
pub fn session_env_vars() -> (names: Vec<&'static str>)
    ensures
        names@.len() == 3,
        names@[0]@ == "CLAUDE_SESSION_ID"@,
        names@[1]@ == "CLAUDE_CODE_SESSION_ID"@,
        names@[2]@ == "ANTHROPIC_SESSION_ID"@,
{
    vec!["CLAUDE_SESSION_ID", "CLAUDE_CODE_SESSION_ID", "ANTHROPIC_SESSION_ID"]
}

/// The first value of `vals` that is present and not empty.
pub open spec fn first_nonempty(vals: Seq<Option<Seq<char>>>) -> Option<Seq<char>>
    decreases vals.len(),
{
    if vals.len() == 0 {
        None
    } else {
        match vals[0] {
            Some(v) => if v.len() > 0 {
                Some(v)
            } else {
                first_nonempty(vals.drop_first())
            },
            None => first_nonempty(vals.drop_first()),
        }
    }
}

/// The text of a random UUID: 36 characters, lowercase hexadecimal digits
/// with hyphens at positions 8, 13, 18 and 23.
pub open spec fn uuid_shaped(s: Seq<char>) -> bool {
    &&& s.len() == 36
    &&& forall|i: int|
        0 <= i < 36 ==> if i == 8 || i == 13 || i == 18 || i == 23 {
            #[trigger] s[i] == '-'
        } else {
            ('0' <= s[i] <= '9') || ('a' <= s[i] <= 'f')
        }
}

/// The lowercase hexadecimal digit of `n` (below sixteen).
pub open spec fn hex_digit(n: int) -> char {
    seq!['0', '1', '2', '3', '4', '5', '6', '7', '8', '9', 'a', 'b', 'c', 'd', 'e', 'f'][n]
}

/// Byte `i` of a version-4 UUID made from the random bytes `b`: the high
/// half of byte 6 holds the version (4), the two high bits of byte 8 the
/// variant (binary 10); every other byte is as given.
pub open spec fn uuid_v4_byte(b: Seq<u8>, i: int) -> int {
    if i == 6 {
        b[6] % 16 + 0x40
    } else if i == 8 {
        b[8] % 64 + 0x80
    } else {
        b[i] as int
    }
}

/// The 32 hexadecimal digits of the version-4 UUID made from `b`, each
/// byte's high half first.
pub open spec fn uuid_v4_hex(b: Seq<u8>) -> Seq<char> {
    Seq::new(
        32,
        |k: int|
            hex_digit(
                if k % 2 == 0 {
                    uuid_v4_byte(b, k / 2) / 16
                } else {
                    uuid_v4_byte(b, k / 2) % 16
                },
            ),
    )
}

/// The text of the version-4 UUID made from the random bytes `b`: its
/// digits in groups of 8, 4, 4, 4 and 12, joined by hyphens.
pub open spec fn uuid_v4_text(b: Seq<u8>) -> Seq<char> {
    let h = uuid_v4_hex(b);
    h.subrange(0, 8) + seq!['-'] + h.subrange(8, 12) + seq!['-'] + h.subrange(12, 16) + seq!['-']
        + h.subrange(16, 20) + seq!['-'] + h.subrange(20, 32)
}

/// A hexadecimal digit is a decimal digit or a lowercase letter up to `f`.
proof fn lemma_hex_digit(n: int)
    requires
        0 <= n < 16,
    ensures
        ('0' <= hex_digit(n) <= '9') || ('a' <= hex_digit(n) <= 'f'),
{
    let d = seq!['0', '1', '2', '3', '4', '5', '6', '7', '8', '9', 'a', 'b', 'c', 'd', 'e', 'f'];
    assert(hex_digit(n) == d[n]);
    if n < 8 {
        if n < 4 {
            assert(n == 0 || n == 1 || n == 2 || n == 3);
        } else {
            assert(n == 4 || n == 5 || n == 6 || n == 7);
        }
    } else if n < 12 {
        assert(n == 8 || n == 9 || n == 10 || n == 11);
    } else {
        assert(n == 12 || n == 13 || n == 14 || n == 15);
    }
}

/// The text of a UUID made from sixteen random bytes has the shape of a
/// UUID.
pub proof fn lemma_uuid_v4_text_shaped(b: Seq<u8>)
    requires
        b.len() == 16,
    ensures
        uuid_shaped(uuid_v4_text(b)),
{
    let h = uuid_v4_hex(b);
    let t = uuid_v4_text(b);
    assert forall|k: int| 0 <= k < 32 implies ('0' <= #[trigger] h[k] <= '9') || ('a' <= h[k] <= 'f') by {
        let x = uuid_v4_byte(b, k / 2);
        assert(0 <= x < 256);
        if k % 2 == 0 {
            lemma_hex_digit(x / 16);
        } else {
            lemma_hex_digit(x % 16);
        }
    }
    assert(t.len() == 36);
    assert forall|i: int| 0 <= i < 36 implies if i == 8 || i == 13 || i == 18 || i == 23 {
        #[trigger] t[i] == '-'
    } else {
        ('0' <= t[i] <= '9') || ('a' <= t[i] <= 'f')
    } by {
        if i < 8 {
            assert(t[i] == h[i]);
        } else if i == 8 {
        } else if i < 13 {
            assert(t[i] == h[i - 1]);
        } else if i == 13 {
        } else if i < 18 {
            assert(t[i] == h[i - 2]);
        } else if i == 18 {
        } else if i < 23 {
            assert(t[i] == h[i - 3]);
        } else if i == 23 {
        } else {
            assert(t[i] == h[i - 4]);
        }
    }
}

/// The text of the version-4 UUID made from sixteen random bytes.
///
/// Calls `uuid::Builder::from_random_bytes` (which sets the version and
/// variant bits), `into_uuid`, and the UUID's `Display`, which writes the
/// lowercase hyphenated form; none of them can fail. The contract states
/// that text ([`uuid_v4_text`]).
#[verifier::external_body]
fn uuid_v4_from_bytes(bytes: [u8; 16]) -> (s: String)
    ensures
        s@ == uuid_v4_text(bytes@),
{
    uuid::Builder::from_random_bytes(bytes).into_uuid().to_string()
}

/// The session id: the explicit one when given, otherwise the first
/// present and non-empty value of the session environment variables (in
/// the order of [`session_env_vars`]), otherwise the text of a new random
/// UUID made from `random_bytes`.
pub fn get_session_id(explicit: Option<String>, env_values: &Vec<Option<String>>, random_bytes: [u8; 16]) -> (id:
    String)
    ensures
        match explicit {
            Some(x) => id@ == x@,
            None => match first_nonempty(env_values@.map_values(|v: Option<String>| opt_str_view(v))) {
                Some(v) => id@ == v,
                None => id@ == uuid_v4_text(random_bytes@),
            },
        },
{
    if let Some(x) = explicit {
        return x;
    }
    let ghost vals = env_values@.map_values(|v: Option<String>| opt_str_view(v));
    let n = env_values.len();
    let mut i: usize = 0;
    assert(vals.skip(0) =~= vals);
    while i < n
        invariant
            explicit is None,
            n == env_values@.len(),
            vals == env_values@.map_values(|v: Option<String>| opt_str_view(v)),
            0 <= i <= n,
            first_nonempty(vals) == first_nonempty(vals.skip(i as int)),
        decreases n - i,
    {
        proof {
            assert(vals.skip(i as int).drop_first() =~= vals.skip(i + 1));
            assert(vals.skip(i as int)[0] == opt_str_view(env_values@[i as int]));
        }
        match &env_values[i] {
            Some(v) => {
                if !v.as_str().is_empty() {
                    return v.clone();
                }
            },
            None => {},
        }
        i = i + 1;
    }
    proof {
        assert(vals.skip(n as int).len() == 0);
    }
    uuid_v4_from_bytes(random_bytes)
}

// ------------------------------------------------------------
// Conversation title
// ------------------------------------------------------------

/// The string value of the top-level field `key` of the JSON text `text`:
/// `None` when the text is not JSON, is not an object, lacks the field, or
/// the field is not a string.
pub uninterp spec fn json_str_field(text: Seq<char>, key: Seq<char>) -> Option<Seq<char>>;

/// The string value of the top-level field `key` of the JSON text `text`.
///
/// Calls `serde_json::from_str::<serde_json::Value>` on the text and
/// `Value::get` with the key, and keeps a `Value::String`; a parse error or
/// any other outcome becomes `None`. The contract names the result
/// ([`json_str_field`]), a function of the two texts.
#[verifier::external_body]
fn json_string_field(text: &str, key: &str) -> (r: Option<String>)
    ensures
        opt_str_view(r) == json_str_field(text@, key@),
{
    match serde_json::from_str::<serde_json::Value>(text) {
        Ok(v) => match v.get(key) {
            Some(serde_json::Value::String(s)) => Some(s.clone()),
            _ => None,
        },
        Err(_) => None,
    }
}

/// The entry type that carries a title.
pub open spec fn ai_title_type() -> Seq<char> {
    seq!['a', 'i', '-', 't', 'i', 't', 'l', 'e']
}

/// The key of the entry type.
pub open spec fn type_key() -> Seq<char> {
    seq!['t', 'y', 'p', 'e']
}

/// The key of the title.
pub open spec fn title_key() -> Seq<char> {
    seq!['a', 'i', 'T', 'i', 't', 'l', 'e']
}

/// The title one transcript line carries: its `aiTitle` string when its
/// `type` is "ai-title".
pub open spec fn ai_title_of(line: Seq<char>) -> Option<Seq<char>> {
    if json_str_field(line, type_key()) == Some(ai_title_type()) {
        json_str_field(line, title_key())
    } else {
        None
    }
}

/// Whether an entry's type is the one that carries a title.
pub fn is_ai_title_type(type_field: &Option<String>) -> (b: bool)
    ensures
        b == (opt_str_view(*type_field) == Some(ai_title_type())),
{
    proof {
        reveal_strlit("ai-title");
        assert("ai-title"@ =~= ai_title_type());
    }
    match type_field {
        Some(t) => str_equal(t.as_str(), "ai-title"),
        None => false,
    }
}

/// The title one transcript line carries (see [`ai_title_of`]).
pub fn ai_title_of_line(line: &str) -> (r: Option<String>)
    ensures
        opt_str_view(r) == ai_title_of(line@),
{
    proof {
        reveal_strlit("type");
        reveal_strlit("aiTitle");
        assert("type"@ =~= type_key());
        assert("aiTitle"@ =~= title_key());
    }
    let t = json_string_field(line, "type");
    if is_ai_title_type(&t) {
        json_string_field(line, "aiTitle")
    } else {
        None
    }
}

/// A line without the carriage return that ends it, if any.
pub open spec fn strip_cr(line: Seq<char>) -> Seq<char> {
    if line.len() > 0 && line.last() == '\r' {
        line.drop_last()
    } else {
        line
    }
}

/// The finished lines of `s` and the unfinished rest after the last line
/// feed.
pub open spec fn line_scan(s: Seq<char>) -> (Seq<Seq<char>>, Seq<char>)
    decreases s.len(),
{
    if s.len() == 0 {
        (Seq::empty(), Seq::empty())
    } else {
        let (done, cur) = line_scan(s.drop_last());
        if s.last() == '\n' {
            (done.push(strip_cr(cur)), Seq::empty())
        } else {
            (done, cur.push(s.last()))
        }
    }
}

/// The lines of `s` (what `str::lines` yields): split at line feeds, a
/// carriage return before a line feed removed, and no empty line after a
/// final line feed.
pub open spec fn lines_of(s: Seq<char>) -> Seq<Seq<char>> {
    let (done, cur) = line_scan(s);
    if cur.len() > 0 {
        done.push(cur)
    } else {
        done
    }
}

/// The last value present in `vals`.
pub open spec fn last_some(vals: Seq<Option<Seq<char>>>) -> Option<Seq<char>>
    decreases vals.len(),
{
    if vals.len() == 0 {
        None
    } else if vals.last() is Some {
        vals.last()
    } else {
        last_some(vals.drop_last())
    }
}

/// The titles the lines carry.
pub open spec fn titles_of(lines: Seq<Seq<char>>) -> Seq<Option<Seq<char>>> {
    lines.map_values(|l: Seq<char>| ai_title_of(l))
}

/// The conversation's title in a transcript: the last title any of its
/// lines carries (the title may be revised during the conversation).
pub fn last_ai_title(content: &str) -> (r: Option<String>)
    ensures
        opt_str_view(r) == last_some(titles_of(lines_of(content@))),
{
    let cs = chars_of(content);
    let n = cs.len();
    let mut current: Vec<char> = Vec::new();
    let mut found: Option<String> = None;
    let mut i: usize = 0;
    proof {
        assert(cs@.take(0) =~= Seq::<char>::empty());
        assert(titles_of(line_scan(cs@.take(0)).0) =~= Seq::<Option<Seq<char>>>::empty());
    }
    while i < n
        invariant
            n == cs@.len(),
            cs@ == content@,
            0 <= i <= n,
            line_scan(cs@.take(i as int)).1 == current@,
            opt_str_view(found) == last_some(titles_of(line_scan(cs@.take(i as int)).0)),
        decreases n - i,
    {
        let c = cs[i];
        let ghost done = line_scan(cs@.take(i as int)).0;
        proof {
            assert(cs@.take(i + 1).drop_last() =~= cs@.take(i as int));
            assert(cs@.take(i + 1).last() == c);
        }
        if c == '\n' {
            let mut line = current;
            if line.len() > 0 && line[line.len() - 1] == '\r' {
                line.pop();
            }
            let ghost stripped = line@;
            proof {
                assert(stripped =~= strip_cr(current@));
            }
            let text = string_of(&line);
            let t = ai_title_of_line(text.as_str());
            proof {
                assert(line_scan(cs@.take(i + 1)) == (done.push(strip_cr(current@)), Seq::<char>::empty()));
                let ts = titles_of(done.push(stripped));
                assert(ts =~= titles_of(done).push(ai_title_of(stripped)));
                assert(ts.drop_last() =~= titles_of(done));
                assert(ts.last() == opt_str_view(t));
            }
            if t.is_some() {
                found = t;
            }
            current = Vec::new();
        } else {
            current.push(c);
            proof {
                assert(line_scan(cs@.take(i + 1)) == (done, current@));
            }
        }
        i = i + 1;
    }
    proof {
        assert(cs@.take(n as int) =~= cs@);
    }
    if current.len() > 0 {
        let ghost done = line_scan(cs@).0;
        let text = string_of(&current);
        let t = ai_title_of_line(text.as_str());
        proof {
            let ts = titles_of(done.push(current@));
            assert(ts =~= titles_of(done).push(ai_title_of(current@)));
            assert(ts.drop_last() =~= titles_of(done));
            assert(ts.last() == opt_str_view(t));
        }
        if t.is_some() {
            found = t;
        }
    }
    found
}

// ------------------------------------------------------------
// Project directory
// ------------------------------------------------------------

/// The lowercase form of a string (what `str::to_lowercase` returns).
pub uninterp spec fn lowercase_of(s: Seq<char>) -> Seq<char>;

/// The lowercase form of a string.
///
/// Calls `str::to_lowercase`, whose result is the Unicode lowercase mapping
/// of each character; the contract names the result ([`lowercase_of`]), a
/// function of the string.
#[verifier::external_body]
fn lowercase(s: &str) -> (r: String)
    ensures
        r@ == lowercase_of(s@),
{
    s.to_lowercase()
}

/// Backslashes turned into slashes.
pub open spec fn slashes(s: Seq<char>) -> Seq<char> {
    s.map_values(|c: char| if c == '\\' { '/' } else { c })
}

/// Every "/." turned into "--", scanning left to right without overlaps.
pub open spec fn dot_dirs(s: Seq<char>) -> Seq<char>
    decreases s.len(),
{
    if s.len() == 0 {
        s
    } else if s.len() >= 2 && s[0] == '/' && s[1] == '.' {
        seq!['-', '-'] + dot_dirs(s.skip(2))
    } else {
        seq![s[0]] + dot_dirs(s.skip(1))
    }
}

/// Slashes and spaces turned into dashes.
pub open spec fn dashes(s: Seq<char>) -> Seq<char> {
    s.map_values(|c: char| if c == '/' || c == ' ' { '-' } else { c })
}

/// `s` without its leading dashes.
pub open spec fn strip_dashes(s: Seq<char>) -> Seq<char>
    decreases s.len(),
{
    if s.len() > 0 && s[0] == '-' {
        strip_dashes(s.drop_first())
    } else {
        s
    }
}

/// A path encoded as a directory name.
pub open spec fn encode_path(s: Seq<char>) -> Seq<char> {
    strip_dashes(dashes(dot_dirs(s)))
}

/// The position of the first `c` in `s`, or -1.
pub open spec fn find_char(s: Seq<char>, c: char) -> int
    decreases s.len(),
{
    if s.len() == 0 {
        -1
    } else if s[0] == c {
        0
    } else {
        let r = find_char(s.drop_first(), c);
        if r < 0 {
            -1
        } else {
            r + 1
        }
    }
}

/// The project directory name made of an optional lowercase drive and a
/// path: "drive--encoded path", or the encoded path alone; `None` when that
/// is empty.
pub open spec fn project_dir(drive_lower: Option<Seq<char>>, path: Seq<char>) -> Option<Seq<char>> {
    let enc = match drive_lower {
        Some(d) => d + seq!['-', '-'] + encode_path(path),
        None => encode_path(path),
    };
    if enc.len() == 0 {
        None
    } else {
        Some(enc)
    }
}

/// The project directory name of a working directory: backslashes become
/// slashes; when there is a colon, what precedes the first one is the drive,
/// lowercased, and the rest the path.
pub open spec fn project_dir_of(cwd: Seq<char>) -> Option<Seq<char>> {
    let n = slashes(cwd);
    let p = find_char(n, ':');
    if p >= 0 {
        project_dir(Some(lowercase_of(n.take(p))), n.skip(p + 1))
    } else {
        project_dir(None, n)
    }
}

/// `path` encoded as a directory name (see [`encode_path`]).
fn encode_path_chars(path: &Vec<char>) -> (r: Vec<char>)
    ensures
        r@ == encode_path(path@),
{
    let n = path.len();
    let mut out: Vec<char> = Vec::new();
    let mut i: usize = 0;
    assert(path@.skip(0) =~= path@);
    while i < n
        invariant
            n == path@.len(),
            0 <= i <= n,
            out@ + dot_dirs(path@.skip(i as int)) == dot_dirs(path@),
        decreases n - i,
    {
        if i + 1 < n && path[i] == '/' && path[i + 1] == '.' {
            out.push('-');
            out.push('-');
            proof {
                assert(path@.skip(i as int).skip(2) =~= path@.skip(i + 2));
            }
            i = i + 2;
        } else {
            out.push(path[i]);
            proof {
                assert(path@.skip(i as int).skip(1) =~= path@.skip(i + 1));
            }
            i = i + 1;
        }
    }
    proof {
        assert(path@.skip(n as int) =~= Seq::<char>::empty());
        assert(out@ =~= dot_dirs(path@));
    }
    let m = out.len();
    let mut d: Vec<char> = Vec::new();
    let mut k: usize = 0;
    while k < m
        invariant
            m == out@.len(),
            0 <= k <= m,
            d@ == dashes(out@.take(k as int)),
        decreases m - k,
    {
        let c = out[k];
        d.push(if c == '/' || c == ' ' { '-' } else { c });
        k = k + 1;
        assert(d@ =~= dashes(out@.take(k as int)));
    }
    assert(out@.take(m as int) =~= out@);
    let mut a: usize = 0;
    assert(d@.skip(0) =~= d@);
    while a < m && d[a] == '-'
        invariant
            m == d@.len(),
            0 <= a <= m,
            strip_dashes(d@) == strip_dashes(d@.skip(a as int)),
        decreases m - a,
    {
        assert(d@.skip(a as int).drop_first() =~= d@.skip(a + 1));
        a = a + 1;
    }
    let mut r: Vec<char> = Vec::new();
    let mut j: usize = a;
    while j < m
        invariant
            a <= j <= m,
            m == d@.len(),
            r@ == d@.subrange(a as int, j as int),
        decreases m - j,
    {
        r.push(d[j]);
        j = j + 1;
        assert(r@ =~= d@.subrange(a as int, j as int));
    }
    proof {
        assert(d@.skip(a as int) =~= d@.subrange(a as int, m as int));
    }
    r
}

/// The project directory name made of an optional lowercase drive and a
/// path (see [`project_dir`]).
pub fn project_dir_from_parts(drive_lower: Option<&str>, path: &str) -> (r: Option<String>)
    ensures
        opt_str_view(r) == project_dir(
            match drive_lower {
                Some(d) => Some(d@),
                None => None,
            },
            path@,
        ),
{
    let p = chars_of(path);
    let enc = encode_path_chars(&p);
    let mut all: Vec<char> = Vec::new();
    match drive_lower {
        Some(d) => {
            all = chars_of(d);
            all.push('-');
            all.push('-');
        },
        None => {},
    }
    let ghost prefix = all@;
    let mut k: usize = 0;
    while k < enc.len()
        invariant
            0 <= k <= enc@.len(),
            all@ == prefix + enc@.take(k as int),
        decreases enc@.len() - k,
    {
        all.push(enc[k]);
        k = k + 1;
        assert(all@ =~= prefix + enc@.take(k as int));
    }
    proof {
        assert(enc@.take(enc@.len() as int) =~= enc@);
        match drive_lower {
            Some(d) => {
                assert(prefix =~= d@ + seq!['-', '-']);
            },
            None => {
                assert(prefix =~= Seq::<char>::empty());
            },
        }
    }
    if all.len() == 0 {
        None
    } else {
        Some(string_of(&all))
    }
}

/// The characters of `s` with backslashes turned into slashes.
fn slashes_of(s: &str) -> (r: Vec<char>)
    ensures
        r@ == slashes(s@),
{
    let cs = chars_of(s);
    let n = cs.len();
    let mut norm: Vec<char> = Vec::new();
    let mut i: usize = 0;
    while i < n
        invariant
            n == cs@.len(),
            cs@ == s@,
            0 <= i <= n,
            norm@ == slashes(cs@.take(i as int)),
        decreases n - i,
    {
        let c = cs[i];
        norm.push(if c == '\\' { '/' } else { c });
        i = i + 1;
        assert(norm@ =~= slashes(cs@.take(i as int)));
    }
    assert(cs@.take(n as int) =~= cs@);
    norm
}

/// The position of the first `c` in `v`, or the length of `v` when there is
/// none.
fn first_position(v: &Vec<char>, c: char) -> (p: usize)
    ensures
        p <= v@.len(),
        p < v@.len() ==> find_char(v@, c) == p,
        p == v@.len() ==> find_char(v@, c) == -1,
{
    let ghost ns = v@;
    let n = v.len();
    let mut p: usize = 0;
    assert(ns.skip(0) =~= ns);
    while p < n && v[p] != c
        invariant
            n == ns.len(),
            ns == v@,
            0 <= p <= n,
            find_char(ns, c) == if find_char(ns.skip(p as int), c) < 0 {
                -1
            } else {
                find_char(ns.skip(p as int), c) + p
            },
        decreases n - p,
    {
        assert(ns.skip(p as int).drop_first() =~= ns.skip(p + 1));
        p = p + 1;
    }
    if p == n {
        assert(ns.skip(n as int) =~= Seq::<char>::empty());
    }
    p
}

/// The characters of `v` from position `a` up to position `b`.
fn chars_between(v: &Vec<char>, a: usize, b: usize) -> (r: Vec<char>)
    requires
        a <= b <= v@.len(),
    ensures
        r@ == v@.subrange(a as int, b as int),
{
    let mut r: Vec<char> = Vec::new();
    let mut j: usize = a;
    while j < b
        invariant
            a <= j <= b <= v@.len(),
            r@ == v@.subrange(a as int, j as int),
        decreases b - j,
    {
        r.push(v[j]);
        j = j + 1;
        assert(r@ =~= v@.subrange(a as int, j as int));
    }
    r
}

/// The transcript's project directory name for a working directory (see
/// [`project_dir_of`]).
pub fn encode_cwd_to_project_dir(cwd: &str) -> (r: Option<String>)
    ensures
        opt_str_view(r) == project_dir_of(cwd@),
{
    let norm = slashes_of(cwd);
    let n = norm.len();
    let p = first_position(&norm, ':');
    if p < n {
        let drive = chars_between(&norm, 0, p);
        let rest = chars_between(&norm, p + 1, n);
        proof {
            assert(norm@.take(p as int) =~= drive@);
            assert(norm@.skip(p + 1) =~= rest@);
        }
        let drive_text = string_of(&drive);
        let lower = lowercase(drive_text.as_str());
        let rest_text = string_of(&rest);
        project_dir_from_parts(Some(lower.as_str()), rest_text.as_str())
    } else {
        let text = string_of(&norm);
        project_dir_from_parts(None, text.as_str())
    }
}

// ------------------------------------------------------------
// The client's run
// ------------------------------------------------------------

/// What the client has learned by its last step.
#[derive(Debug)]
pub enum CliEvent {
    /// The arguments could not be parsed.
    ParseFailed { message: String },
    /// No known command matched the arguments.
    UnknownCommand,
    /// The arguments were parsed: the command, its arguments, the session id
    /// given with `--session-id`, the values of the session environment
    /// variables (in the order of [`session_env_vars`]), sixteen random bytes
    /// for a new session id, and the questions in the first argument as an
    /// ask reads them (an error carries the parser's message, or nothing when
    /// the argument is missing).
    Parsed {
        command: String,
        args: CliArgs,
        explicit_session: Option<String>,
        env_values: Vec<Option<String>>,
        random_bytes: [u8; 16],
        ask_items: Result<Vec<AskItem>, Option<String>>,
    },
    /// The conversation's title, if one was found.
    Title { display_name: Option<String> },
    /// The request could not be serialised.
    SerializeFailed { message: String },
    /// The application answered with this JSON text.
    Replied { response: String },
    /// The application could not be reached in time.
    Unreachable { message: String },
}

/// What the client is to do next.
#[derive(Debug)]
pub enum CliAction {
    /// Print the message, if any, on standard error and exit with status 1.
    Fail { message: Option<String> },
    /// Read the conversation's title for the session and report it.
    ReadTitle { session_id: String },
    /// Serialise the request and send it, trying for `timeout_ms`
    /// milliseconds every `retry_ms` milliseconds.
    Send { request: IpcRequest, timeout_ms: u64, retry_ms: u64 },
    /// Start the application in the background, then send the same request
    /// again, trying for `timeout_ms` milliseconds every `retry_ms`.
    SpawnAndResend { timeout_ms: u64, retry_ms: u64 },
    /// Print the response on standard output; the run is over.
    Print { output: String },
}

/// Where the client's run stands.
#[derive(Debug)]
pub enum CliState {
    /// Nothing parsed yet.
    Start,
    /// An ask waits for the conversation's title.
    AwaitTitle { session_id: String, items: Vec<AskItem> },
    /// The request went out once, quickly, for command `command`.
    FirstAttempt { command: String },
    /// The request went out again after starting the application.
    SecondAttempt,
    /// The run is over.
    Done,
}

/// The first attempt's time limit: half a second.
pub open spec fn quick_timeout_ms() -> u64 {
    500
}

/// The pause between attempts: fifty milliseconds.
pub open spec fn retry_interval_ms() -> u64 {
    50
}

/// The action ends the run with the message `text`.
pub open spec fn fails_with(a: CliAction, text: Seq<char>) -> bool {
    a matches CliAction::Fail { message: Some(m) } && m@ == text
}

/// The action prints `text` and ends the run.
pub open spec fn prints(a: CliAction, text: Seq<char>) -> bool {
    a matches CliAction::Print { output } && output@ == text
}

/// The action sends `req`, trying for `timeout` milliseconds at the usual
/// pace.
pub open spec fn sends(a: CliAction, req: RequestView, timeout: u64) -> bool {
    a matches CliAction::Send { request, timeout_ms, retry_ms } && request@ == req && timeout_ms == timeout
        && retry_ms == retry_interval_ms()
}

/// `sid` is the session id chosen from an explicit id, the environment and
/// the random bytes (see [`get_session_id`]).
pub open spec fn session_id_choice(
    explicit: Option<String>,
    env_values: Seq<Option<String>>,
    random_bytes: Seq<u8>,
    sid: Seq<char>,
) -> bool {
    match explicit {
        Some(x) => sid == x@,
        None => match first_nonempty(env_values.map_values(|v: Option<String>| opt_str_view(v))) {
            Some(v) => sid == v,
            None => sid == uuid_v4_text(random_bytes),
        },
    }
}

/// An ask with readable questions now waits for the title of its session.
pub open spec fn awaits_title(
    st: CliState,
    a: CliAction,
    explicit: Option<String>,
    env_values: Seq<Option<String>>,
    random_bytes: Seq<u8>,
    items: Seq<AskItemView>,
) -> bool {
    &&& st matches CliState::AwaitTitle { session_id, items: kept }
    &&& session_id_choice(explicit, env_values, random_bytes, session_id@)
    &&& item_views(kept@) == items
    &&& a matches CliAction::ReadTitle { session_id: s2 }
    &&& s2@ == session_id@
}

/// A request other than an ask goes out quickly.
pub open spec fn sends_first(
    st: CliState,
    a: CliAction,
    command: String,
    args: CliArgs,
    explicit: Option<String>,
    env_values: Seq<Option<String>>,
    random_bytes: Seq<u8>,
) -> bool {
    &&& st matches CliState::FirstAttempt { command: c }
    &&& c@ == command@
    &&& a matches CliAction::Send { request, timeout_ms, retry_ms }
    &&& timeout_ms == quick_timeout_ms()
    &&& retry_ms == retry_interval_ms()
    &&& exists|sid: Seq<char>|
        session_id_choice(explicit, env_values, random_bytes, sid) && #[trigger] request_for(
            command@,
            strs_view(args.positionals@),
            args.any,
            args.timeout,
            opt_str_view(args.reason),
            sid,
            None,
            None,
        ) == Some(request@)
}

/// A message made of a fixed text and a detail.
fn message_with(prefix: &str, detail: &str) -> (m: String)
    ensures
        m@ == prefix@ + detail@,
{
    let mut m = prefix.to_owned();
    m.append(detail);
    m
}

/// One step of the client's run: from where it stands and what it just
/// learned, where it stands next and what it does.
///
/// - A parse failure ends the run with "asqu: parse error: " and the
///   parser's message; an unknown command ends it with the usage line.
/// - Parsed arguments fix the session id (see [`get_session_id`]). An ask
///   whose questions could not be read ends the run with the reason; a
///   valid ask first reads the conversation's title. Any other command's
///   request (see [`build_request`]) goes out at once; a command without a
///   request ends the run with "asqu: unknown command: " and its name.
/// - With the title, the ask's request goes out.
/// - The first attempt is quick (half a second); when the application
///   cannot be reached, it is started and the request goes out again for
///   five minutes for a wait and fifteen seconds otherwise; when it still
///   cannot be reached, the run ends with "asqu: IPC error: " and the
///   reason. Any answer is printed and ends the run.
/// - A serialisation failure ends the run with "asqu: serialization error: "
///   and the reason. Any other pairing ends the run without a message.
pub fn run_cli(state: CliState, event: CliEvent) -> (r: (CliState, CliAction))
    ensures
        match (state, event) {
            (CliState::Start, CliEvent::ParseFailed { message }) => r.0 is Done && fails_with(
                r.1,
                "asqu: parse error: "@ + message@,
            ),
            (CliState::Start, CliEvent::UnknownCommand) => r.0 is Done && fails_with(
                r.1,
                "asqu: unknown command. Usage: asqu <ask|wait|get|dismiss|open> [args]"@,
            ),
            (
                CliState::Start,
                CliEvent::Parsed { command, args, explicit_session, env_values, random_bytes, ask_items },
            ) => if command@ == ask_cmd() {
                match ask_items {
                    Ok(items) => awaits_title(
                        r.0,
                        r.1,
                        explicit_session,
                        env_values@,
                        random_bytes@,
                        item_views(items@),
                    ),
                    Err(None) => r.0 is Done && fails_with(
                        r.1,
                        "asqu ask: argument must be a JSON array (e.g. '[{\"text\":\"Q?\",\"choices\":[\"A\",\"B\"]}]')"@,
                    ),
                    Err(Some(e)) => r.0 is Done && fails_with(
                        r.1,
                        "asqu ask: argument must be a JSON array: "@ + e@,
                    ),
                }
            } else {
                sends_first(r.0, r.1, command, args, explicit_session, env_values@, random_bytes@) || (r.0 is Done
                    && fails_with(r.1, "asqu: unknown command: "@ + command@) && forall|sid: Seq<char>|
                    #[trigger] request_for(
                    command@,
                    strs_view(args.positionals@),
                    args.any,
                    args.timeout,
                    opt_str_view(args.reason),
                    sid,
                    None,
                    None,
                ) is None)
            },
            (CliState::AwaitTitle { session_id, items }, CliEvent::Title { display_name }) => {
                &&& r.0 matches CliState::FirstAttempt { command: c }
                &&& c@ == ask_cmd()
                &&& sends(
                    r.1,
                    RequestView::Ask(session_id@, opt_str_view(display_name), item_views(items@)),
                    quick_timeout_ms(),
                )
            },
            (CliState::FirstAttempt { command }, CliEvent::Unreachable { .. }) => {
                &&& r.0 is SecondAttempt
                &&& r.1 == CliAction::SpawnAndResend {
                    timeout_ms: if command@ == wait_cmd() {
                        300_000u64
                    } else {
                        15_000u64
                    },
                    retry_ms: retry_interval_ms(),
                }
            },
            (CliState::SecondAttempt, CliEvent::Unreachable { message }) => r.0 is Done && fails_with(
                r.1,
                "asqu: IPC error: "@ + message@,
            ),
            (CliState::FirstAttempt { .. }, CliEvent::Replied { response }) => r.0 is Done && prints(
                r.1,
                response@,
            ),
            (CliState::SecondAttempt, CliEvent::Replied { response }) => r.0 is Done && prints(
                r.1,
                response@,
            ),
            (CliState::FirstAttempt { .. }, CliEvent::SerializeFailed { message }) => r.0 is Done
                && fails_with(r.1, "asqu: serialization error: "@ + message@),
            _ => r.0 is Done && r.1 == CliAction::Fail { message: None },
        },
{
    match (state, event) {
        (CliState::Start, CliEvent::ParseFailed { message }) => {
            let m = message_with("asqu: parse error: ", message.as_str());
            (CliState::Done, CliAction::Fail { message: Some(m) })
        },
        (CliState::Start, CliEvent::UnknownCommand) => {
            let m = "asqu: unknown command. Usage: asqu <ask|wait|get|dismiss|open> [args]".to_owned();
            (CliState::Done, CliAction::Fail { message: Some(m) })
        },
        (CliState::Start, CliEvent::Parsed { command, args, explicit_session, env_values, random_bytes, ask_items }) => {
            let session_id = get_session_id(explicit_session, &env_values, random_bytes);
            proof {
                reveal_strlit("ask");
                assert("ask"@ =~= ask_cmd());
            }
            if str_equal(command.as_str(), "ask") {
                match ask_items {
                    Ok(items) => {
                        let sid = session_id.clone();
                        (CliState::AwaitTitle { session_id, items }, CliAction::ReadTitle { session_id: sid })
                    },
                    Err(None) => {
                        let m = "asqu ask: argument must be a JSON array (e.g. '[{\"text\":\"Q?\",\"choices\":[\"A\",\"B\"]}]')".to_owned();
                        (CliState::Done, CliAction::Fail { message: Some(m) })
                    },
                    Err(Some(e)) => {
                        let m = message_with("asqu ask: argument must be a JSON array: ", e.as_str());
                        (CliState::Done, CliAction::Fail { message: Some(m) })
                    },
                }
            } else {
                match build_request(command.as_str(), &args, session_id.as_str(), None, None) {
                    Some(request) => (
                        CliState::FirstAttempt { command },
                        CliAction::Send { request, timeout_ms: 500, retry_ms: 50 },
                    ),
                    None => {
                        let m = message_with("asqu: unknown command: ", command.as_str());
                        proof {
                            assert forall|sid: Seq<char>| request_for(
                                command@,
                                strs_view(args.positionals@),
                                args.any,
                                args.timeout,
                                opt_str_view(args.reason),
                                sid,
                                None,
                                None,
                            ) is None by {}
                        }
                        (CliState::Done, CliAction::Fail { message: Some(m) })
                    },
                }
            }
        },
        (CliState::AwaitTitle { session_id, items }, CliEvent::Title { display_name }) => {
            let request = IpcRequest::Ask { session_id, display_name, questions: items };
            let command = "ask".to_owned();
            proof {
                reveal_strlit("ask");
                assert("ask"@ =~= ask_cmd());
            }
            (CliState::FirstAttempt { command }, CliAction::Send { request, timeout_ms: 500, retry_ms: 50 })
        },
        (CliState::FirstAttempt { command }, CliEvent::Unreachable { .. }) => {
            let timeout_ms = post_spawn_timeout_ms(command.as_str());
            (CliState::SecondAttempt, CliAction::SpawnAndResend { timeout_ms, retry_ms: 50 })
        },
        (CliState::SecondAttempt, CliEvent::Unreachable { message }) => {
            let m = message_with("asqu: IPC error: ", message.as_str());
            (CliState::Done, CliAction::Fail { message: Some(m) })
        },
        (CliState::FirstAttempt { .. }, CliEvent::Replied { response }) => (
            CliState::Done,
            CliAction::Print { output: response },
        ),
        (CliState::SecondAttempt, CliEvent::Replied { response }) => (
            CliState::Done,
            CliAction::Print { output: response },
        ),
        (CliState::FirstAttempt { .. }, CliEvent::SerializeFailed { message }) => {
            let m = message_with("asqu: serialization error: ", message.as_str());
            (CliState::Done, CliAction::Fail { message: Some(m) })
        },
        _ => (CliState::Done, CliAction::Fail { message: None }),
    }
}

} // verus!
