//! Connection-string parsers.
//!
//! The strict form accepts `user@host[:port]`.  The lenient form used for
//! quick entry takes the same shape but falls back to port 22 and to a
//! missing username instead of failing.

use vstd::prelude::*;
use vstd::string::StrSliceExecFns;

use crate::ssh::SshAuthConfig;
use crate::ssh::SshConfig;
use crate::store::view_opt_string;

verus! {

/// ASCII whitespace trimmed from the ends of a connection string.
pub open spec fn is_space_char(c: char) -> bool {
    c == ' ' || c == '\t' || c == '\n' || c == '\r'
}

/// A decimal digit.
pub open spec fn is_digit_char(c: char) -> bool {
    48 <= c as int <= 57
}

/// The string without its leading whitespace.
pub open spec fn trim_start_spec(s: Seq<char>) -> Seq<char>
    decreases s.len(),
{
    if s.len() > 0 && is_space_char(s[0]) {
        trim_start_spec(s.drop_first())
    } else {
        s
    }
}

/// The string without its trailing whitespace.
pub open spec fn trim_end_spec(s: Seq<char>) -> Seq<char>
    decreases s.len(),
{
    if s.len() > 0 && is_space_char(s.last()) {
        trim_end_spec(s.drop_last())
    } else {
        s
    }
}

/// The string without leading and trailing whitespace.
pub open spec fn trim_spec(s: Seq<char>) -> Seq<char> {
    trim_end_spec(trim_start_spec(s))
}

/// Index of the last occurrence of a character, or -1.
pub open spec fn last_index_of_char(s: Seq<char>, c: char) -> int
    decreases s.len(),
{
    if s.len() == 0 {
        -1
    } else if s.last() == c {
        s.len() - 1
    } else {
        last_index_of_char(s.drop_last(), c)
    }
}

/// Index of the first occurrence of a character, or -1.
pub open spec fn first_index_of_char(s: Seq<char>, c: char) -> int
    decreases s.len(),
{
    if s.len() == 0 {
        -1
    } else if s[0] == c {
        0
    } else {
        let r = first_index_of_char(s.drop_first(), c);
        if r < 0 {
            -1
        } else {
            r + 1
        }
    }
}

/// Value of a digit string read in base ten.
pub open spec fn digits_value(s: Seq<char>) -> int
    decreases s.len(),
{
    if s.len() == 0 {
        0
    } else {
        digits_value(s.drop_last()) * 10 + (s.last() as int - 48)
    }
}

/// Whether every character is a decimal digit.
pub open spec fn all_digits(s: Seq<char>) -> bool {
    forall|k: int| 0 <= k < s.len() ==> is_digit_char(#[trigger] s[k])
}

/// A 16-bit port read from a string: an optional leading `+`, then one or
/// more decimal digits, with a value of at most 65535.
pub open spec fn parse_u16_spec(t: Seq<char>) -> Option<u16> {
    let body = if t.len() > 0 && t[0] == '+' {
        t.drop_first()
    } else {
        t
    };
    if body.len() > 0 && all_digits(body) && digits_value(body) <= 65535 {
        Some(digits_value(body) as u16)
    } else {
        None
    }
}

/// Skipping a run of leading whitespace does not change the trimmed string.
proof fn lemma_trim_start_skip(s: Seq<char>, i: int)
    requires
        0 <= i <= s.len(),
        forall|k: int| 0 <= k < i ==> is_space_char(s[k]),
    ensures
        trim_start_spec(s) == trim_start_spec(s.skip(i)),
    decreases i,
{
    if i == 0 {
        assert(s.skip(0) =~= s);
    } else {
        assert(is_space_char(s[0]));
        assert(s.drop_first() =~= s.skip(1));
        assert forall|k: int| 0 <= k < i - 1 implies is_space_char(#[trigger] s.skip(1)[k]) by {
            assert(s.skip(1)[k] == s[k + 1]);
        }
        lemma_trim_start_skip(s.skip(1), i - 1);
        assert(s.skip(1).skip(i - 1) =~= s.skip(i));
    }
}

/// Dropping a run of trailing whitespace does not change the trimmed string.
proof fn lemma_trim_end_take(s: Seq<char>, i: int)
    requires
        0 <= i <= s.len(),
        forall|k: int| i <= k < s.len() ==> is_space_char(s[k]),
    ensures
        trim_end_spec(s) == trim_end_spec(s.take(i)),
    decreases s.len() - i,
{
    if i == s.len() {
        assert(s.take(i) =~= s);
    } else {
        assert(is_space_char(s.last()));
        assert(s.drop_last() =~= s.take(s.len() - 1));
        assert forall|k: int| i <= k < s.len() - 1 implies is_space_char(#[trigger] s.take(s.len() - 1)[k]) by {
            assert(s.take(s.len() - 1)[k] == s[k]);
        }
        lemma_trim_end_take(s.take(s.len() - 1), i);
        assert(s.take(s.len() - 1).take(i) =~= s.take(i));
    }
}

/// Whether a character is trimmed as whitespace.
fn is_space(c: char) -> (r: bool)
    ensures
        r == is_space_char(c),
{
    c == ' ' || c == '\t' || c == '\n' || c == '\r'
}

/// The bounds of the trimmed region of a string, in character positions.
fn trim_bounds(s: &str) -> (r: (usize, usize))
    ensures
        r.0 <= r.1 <= s@.len(),
        s@.subrange(r.0 as int, r.1 as int) == trim_spec(s@),
{
    let n = s.unicode_len();
    let mut start: usize = 0;
    while start < n && is_space(s.get_char(start))
        invariant
            start <= n,
            n == s@.len(),
            forall|k: int| 0 <= k < start ==> is_space_char(s@[k]),
        decreases n - start,
    {
        start = start + 1;
    }
    proof {
        lemma_trim_start_skip(s@, start as int);
    }
    let ghost t = s@.skip(start as int);
    proof {
        if start < n {
            assert(!is_space_char(t[0]));
            assert(trim_start_spec(t) == t);
        } else {
            assert(t =~= Seq::<char>::empty());
        }
        assert(trim_spec(s@) == trim_end_spec(t));
    }
    let mut end: usize = n;
    while end > start && is_space(s.get_char(end - 1))
        invariant
            start <= end <= n,
            n == s@.len(),
            t == s@.skip(start as int),
            forall|k: int| end <= k < n ==> is_space_char(s@[k]),
        decreases end,
    {
        end = end - 1;
    }
    proof {
        assert forall|k: int| end - start <= k < t.len() implies is_space_char(#[trigger] t[k]) by {
            assert(t[k] == s@[start + k]);
        }
        lemma_trim_end_take(t, end - start);
        if end > start {
            assert(t.take(end - start).last() == s@[end - 1]);
            assert(!is_space_char(t.take(end - start).last()));
            assert(trim_end_spec(t.take(end - start)) == t.take(end - start));
        } else {
            assert(t.take(0) =~= Seq::<char>::empty());
        }
        assert(s@.subrange(start as int, end as int) =~= t.take(end - start));
    }
    (start, end)
}

/// If everything after `i` differs and the character at `i` matches, the
/// last index is `i`.
proof fn lemma_last_index_found(s: Seq<char>, c: char, i: int)
    requires
        0 <= i < s.len(),
        s[i] == c,
        forall|k: int| i < k < s.len() ==> s[k] != c,
    ensures
        last_index_of_char(s, c) == i,
    decreases s.len(),
{
    if i == s.len() - 1 {
    } else {
        assert(s.last() != c);
        assert(s.drop_last() =~= s.take(s.len() - 1));
        assert forall|k: int| i < k < s.len() - 1 implies (#[trigger] s.take(s.len() - 1)[k]) != c by {
            assert(s.take(s.len() - 1)[k] == s[k]);
        }
        lemma_last_index_found(s.take(s.len() - 1), c, i);
    }
}

/// If no character matches, the last index is -1.
proof fn lemma_last_index_missing(s: Seq<char>, c: char)
    requires
        forall|k: int| 0 <= k < s.len() ==> s[k] != c,
    ensures
        last_index_of_char(s, c) == -1,
    decreases s.len(),
{
    if s.len() > 0 {
        assert(s.drop_last() =~= s.take(s.len() - 1));
        assert forall|k: int| 0 <= k < s.len() - 1 implies (#[trigger] s.take(s.len() - 1)[k]) != c by {
            assert(s.take(s.len() - 1)[k] == s[k]);
        }
        lemma_last_index_missing(s.take(s.len() - 1), c);
    }
}

/// If everything before `i` differs and the character at `i` matches, the
/// first index is `i`.
proof fn lemma_first_index_found(s: Seq<char>, c: char, i: int)
    requires
        0 <= i < s.len(),
        s[i] == c,
        forall|k: int| 0 <= k < i ==> s[k] != c,
    ensures
        first_index_of_char(s, c) == i,
    decreases i,
{
    if i > 0 {
        assert forall|k: int| 0 <= k < i - 1 implies (#[trigger] s.drop_first()[k]) != c by {
            assert(s.drop_first()[k] == s[k + 1]);
        }
        assert(s.drop_first()[i - 1] == s[i]);
        lemma_first_index_found(s.drop_first(), c, i - 1);
    }
}

/// If no character matches, the first index is -1.
proof fn lemma_first_index_missing(s: Seq<char>, c: char)
    requires
        forall|k: int| 0 <= k < s.len() ==> s[k] != c,
    ensures
        first_index_of_char(s, c) == -1,
    decreases s.len(),
{
    if s.len() > 0 {
        assert forall|k: int| 0 <= k < s.len() - 1 implies (#[trigger] s.drop_first()[k]) != c by {
            assert(s.drop_first()[k] == s[k + 1]);
        }
        lemma_first_index_missing(s.drop_first(), c);
    }
}

/// Position of the last occurrence of a character within `[lo, hi)`.
fn last_char_in(s: &str, lo: usize, hi: usize, c: char) -> (r: Option<usize>)
    requires
        lo <= hi <= s@.len(),
    ensures
        (match r {
            Some(j) => lo <= j < hi && last_index_of_char(s@.subrange(lo as int, hi as int), c)
                == j - lo,
            None => last_index_of_char(s@.subrange(lo as int, hi as int), c) == -1,
        }),
{
    let ghost t = s@.subrange(lo as int, hi as int);
    let mut j: usize = hi;
    while j > lo
        invariant
            lo <= j <= hi <= s@.len(),
            t == s@.subrange(lo as int, hi as int),
            forall|k: int| j - lo <= k < t.len() ==> t[k] != c,
        decreases j,
    {
        if s.get_char(j - 1) == c {
            proof {
                assert(t[j - 1 - lo] == s@[j - 1]);
                lemma_last_index_found(t, c, j - 1 - lo);
            }
            return Some(j - 1);
        }
        proof {
            assert(t[j - 1 - lo] == s@[j - 1]);
        }
        j = j - 1;
    }
    proof {
        lemma_last_index_missing(t, c);
    }
    None
}

/// Position of the first occurrence of a character within `[lo, hi)`.
fn first_char_in(s: &str, lo: usize, hi: usize, c: char) -> (r: Option<usize>)
    requires
        lo <= hi <= s@.len(),
    ensures
        (match r {
            Some(j) => lo <= j < hi && first_index_of_char(s@.subrange(lo as int, hi as int), c)
                == j - lo,
            None => first_index_of_char(s@.subrange(lo as int, hi as int), c) == -1,
        }),
{
    let ghost t = s@.subrange(lo as int, hi as int);
    let mut j: usize = lo;
    while j < hi
        invariant
            lo <= j <= hi <= s@.len(),
            t == s@.subrange(lo as int, hi as int),
            forall|k: int| 0 <= k < j - lo ==> t[k] != c,
        decreases hi - j,
    {
        if s.get_char(j) == c {
            proof {
                assert(t[j - lo] == s@[j as int]);
                lemma_first_index_found(t, c, j - lo);
            }
            return Some(j);
        }
        proof {
            assert(t[j - lo] == s@[j as int]);
        }
        j = j + 1;
    }
    proof {
        lemma_first_index_missing(t, c);
    }
    None
}

/// The value of a digit string only grows as digits are appended.
proof fn lemma_digits_prefix(s: Seq<char>, i: int)
    requires
        0 <= i <= s.len(),
        all_digits(s),
    ensures
        0 <= digits_value(s.take(i)) <= digits_value(s),
    decreases s.len() - i,
{
    if i == s.len() {
        assert(s.take(i) =~= s);
        lemma_digits_nonneg(s);
    } else {
        assert(s.drop_last() =~= s.take(s.len() - 1));
        assert(all_digits(s.take(s.len() - 1))) by {
            assert forall|k: int| 0 <= k < s.len() - 1 implies is_digit_char(#[trigger] s.take(
                s.len() - 1,
            )[k]) by {
                assert(s.take(s.len() - 1)[k] == s[k]);
            }
        }
        lemma_digits_prefix(s.take(s.len() - 1), i);
        assert(s.take(s.len() - 1).take(i) =~= s.take(i));
        lemma_digits_nonneg(s.take(s.len() - 1));
        assert(digits_value(s) == digits_value(s.take(s.len() - 1)) * 10 + (s.last() as int - 48));
    }
}

/// A digit string has a non-negative value.
proof fn lemma_digits_nonneg(s: Seq<char>)
    requires
        all_digits(s),
    ensures
        digits_value(s) >= 0,
    decreases s.len(),
{
    if s.len() > 0 {
        assert(s.drop_last() =~= s.take(s.len() - 1));
        assert(all_digits(s.take(s.len() - 1))) by {
            assert forall|k: int| 0 <= k < s.len() - 1 implies is_digit_char(#[trigger] s.take(
                s.len() - 1,
            )[k]) by {
                assert(s.take(s.len() - 1)[k] == s[k]);
            }
        }
        lemma_digits_nonneg(s.take(s.len() - 1));
    }
}

/// Read a port number from the characters within `[lo, hi)`.
#[verifier::loop_isolation(false)]
fn parse_port(s: &str, lo: usize, hi: usize) -> (r: Option<u16>)
    requires
        lo <= hi <= s@.len(),
    ensures
        r == parse_u16_spec(s@.subrange(lo as int, hi as int)),
{
    let ghost t = s@.subrange(lo as int, hi as int);
    let mut j: usize = lo;
    if j < hi && s.get_char(j) == '+' {
        proof {
            assert(t[0] == s@[lo as int]);
        }
        j = j + 1;
    }
    let ghost body = if t.len() > 0 && t[0] == '+' {
        t.drop_first()
    } else {
        t
    };
    proof {
        assert(body =~= s@.subrange(j as int, hi as int));
    }
    if j == hi {
        return None;
    }
    let mut acc: u32 = 0;
    let mut i: usize = j;
    while i < hi
        invariant
            j <= i <= hi <= s@.len(),
            body == s@.subrange(j as int, hi as int),
            forall|k: int| 0 <= k < i - j ==> is_digit_char(body[k]),
            acc <= 65535,
            acc as int == digits_value(body.take(i - j)),
        decreases hi - i,
    {
        let c = s.get_char(i);
        proof {
            assert(body[i - j] == s@[i as int]);
        }
        let v = c as u32;
        if v < 48 || v > 57 {
            proof {
                assert(!is_digit_char(body[i - j]));
                assert(!all_digits(body)) by {
                    assert(0 <= i - j < body.len() && !is_digit_char(body[i - j]));
                }
            }
            return None;
        }
        let d = v - 48;
        let next = acc * 10 + d;
        proof {
            assert(body.take(i - j).push(body[i - j]) =~= body.take(i + 1 - j));
            assert(body.take(i + 1 - j).drop_last() =~= body.take(i - j));
            assert(digits_value(body.take(i + 1 - j)) == acc as int * 10 + (c as int - 48));
        }
        if next > 65535 {
            proof {
                if all_digits(body) {
                    lemma_digits_prefix(body, i + 1 - j);
                    assert(digits_value(body) > 65535);
                }
            }
            return None;
        }
        acc = next;
        i = i + 1;
    }
    proof {
        assert(body.take(hi - j) =~= body);
    }
    Some(acc as u16)
}

/// The parse of a strict connection string.
pub ghost enum SshParse {
    /// A well-formed `user@host[:port]`.
    Parsed { username: Seq<char>, host: Seq<char>, port: u16 },
    /// The trimmed input was empty.
    ErrEmpty,
    /// A colon suffix that is not a port number.
    ErrPort,
    /// No `@` in the input.
    ErrNoAt,
    /// An empty username or host around the `@`.
    ErrEmptyPart,
}

/// Split `user@host` at the first `@`; both sides must be non-empty.
pub open spec fn spec_split_user_host(u: Seq<char>, port: u16) -> SshParse {
    let ai = first_index_of_char(u, '@');
    if ai < 0 {
        SshParse::ErrNoAt
    } else if ai == 0 || ai + 1 == u.len() {
        SshParse::ErrEmptyPart
    } else {
        SshParse::Parsed { username: u.take(ai), host: u.skip(ai + 1), port }
    }
}

/// The strict grammar `user "@" host [":" port]`: trim whitespace; an empty
/// string is refused; a suffix after the last colon must be a port number;
/// the rest splits at the first `@` into a non-empty user and host.
pub open spec fn spec_parse_ssh_string(raw: Seq<char>) -> SshParse {
    let t = trim_spec(raw);
    if t.len() == 0 {
        SshParse::ErrEmpty
    } else {
        let ci = last_index_of_char(t, ':');
        if ci >= 0 {
            match parse_u16_spec(t.skip(ci + 1)) {
                None => SshParse::ErrPort,
                Some(p) => spec_split_user_host(t.take(ci), p),
            }
        } else {
            spec_split_user_host(t, 22)
        }
    }
}

/// Split the `user@host` region `[lo, hi)` and build the configuration.
fn split_user_host(s: &str, lo: usize, hi: usize, port: u16) -> (r: Result<SshConfig, String>)
    requires
        lo <= hi <= s@.len(),
    ensures
        (match spec_split_user_host(s@.subrange(lo as int, hi as int), port) {
            SshParse::Parsed { username, host, port: p } => r matches Ok(c) && c.host@ == host
                && c.port == p && view_opt_string(c.username) == Some(username) && c.auth is Auto
                && c.env@.len() == 0 && c.keepalive_interval_secs == Some(30u64)
                && c.initial_command is None,
            SshParse::ErrNoAt => r matches Err(e) && e@ == "Format: user@host[:port]"@,
            SshParse::ErrEmptyPart => r matches Err(e) && e@ == "Username and host required"@,
            _ => false,
        }),
{
    let ghost u = s@.subrange(lo as int, hi as int);
    match first_char_in(s, lo, hi, '@') {
        None => Err("Format: user@host[:port]".to_owned()),
        Some(aj) => {
            if aj == lo || aj + 1 == hi {
                Err("Username and host required".to_owned())
            } else {
                let username = s.substring_char(lo, aj).to_owned();
                let host = s.substring_char(aj + 1, hi).to_owned();
                proof {
                    assert(username@ =~= u.take(aj - lo));
                    assert(host@ =~= u.skip(aj - lo + 1));
                }
                Ok(
                    SshConfig {
                        host,
                        port,
                        username: Some(username),
                        auth: SshAuthConfig::Auto,
                        env: Vec::new(),
                        keepalive_interval_secs: Some(30),
                        initial_command: None,
                    },
                )
            }
        },
    }
}

/// Parse a strict `user@host[:port]` connection string into an SSH
/// configuration with automatic authentication and the default keepalive,
/// or the exact error the grammar owes.
pub fn parse_ssh_string(input: &str) -> (r: Result<SshConfig, String>)
    ensures
        (match spec_parse_ssh_string(input@) {
            SshParse::Parsed { username, host, port } => r matches Ok(c) && c.host@ == host
                && c.port == port && view_opt_string(c.username) == Some(username)
                && c.auth is Auto && c.env@.len() == 0 && c.keepalive_interval_secs == Some(30u64)
                && c.initial_command is None,
            SshParse::ErrEmpty => r matches Err(e) && e@ == "Connection string required"@,
            SshParse::ErrPort => r matches Err(e) && e@ == "Invalid port number"@,
            SshParse::ErrNoAt => r matches Err(e) && e@ == "Format: user@host[:port]"@,
            SshParse::ErrEmptyPart => r matches Err(e) && e@ == "Username and host required"@,
        }),
{
    let (start, end) = trim_bounds(input);
    let ghost t = trim_spec(input@);
    if start == end {
        proof {
            assert(t.len() == 0);
        }
        return Err("Connection string required".to_owned());
    }
    match last_char_in(input, start, end, ':') {
        Some(cj) => {
            proof {
                assert(t.skip(cj - start + 1) =~= input@.subrange(cj + 1 as int, end as int));
                assert(t.take(cj - start) =~= input@.subrange(start as int, cj as int));
            }
            match parse_port(input, cj + 1, end) {
                None => Err("Invalid port number".to_owned()),
                Some(p) => split_user_host(input, start, cj, p),
            }
        },
        None => split_user_host(input, start, end, 22),
    }
}

/// The lenient parse of a quick-entry host string: trim; a suffix after the
/// last colon is used as the port only when it is one, the whole string
/// standing otherwise; a `user@` prefix is split off when present; the port
/// falls back to 22.
pub open spec fn spec_parse_ssh_host(raw: Seq<char>) -> (Seq<char>, u16, Option<Seq<char>>) {
    let t = trim_spec(raw);
    let ci = last_index_of_char(t, ':');
    let port_opt = if ci >= 0 {
        parse_u16_spec(t.skip(ci + 1))
    } else {
        None
    };
    let u = if ci >= 0 && port_opt is Some {
        t.take(ci)
    } else {
        t
    };
    let port = if ci >= 0 && port_opt is Some {
        port_opt->0
    } else {
        22u16
    };
    let ai = first_index_of_char(u, '@');
    if ai >= 0 {
        (u.skip(ai + 1), port, Some(u.take(ai)))
    } else {
        (u, port, None)
    }
}

/// One connection recognized in free-form text.
pub struct ParsedConnection {
    pub host: String,
    pub port: Option<u16>,
    pub username: Option<String>,
    pub password: Option<String>,
}

/// Abstract value of a recognized connection.
pub ghost struct ParsedConnectionView {
    pub host: Seq<char>,
    pub port: Option<u16>,
    pub username: Option<Seq<char>>,
    pub password: Option<Seq<char>>,
}

impl View for ParsedConnection {
    type V = ParsedConnectionView;

    open spec fn view(&self) -> ParsedConnectionView {
        ParsedConnectionView {
            host: self.host@,
            port: self.port,
            username: view_opt_string(self.username),
            password: view_opt_string(self.password),
        }
    }
}

impl DeepView for ParsedConnection {
    type V = ParsedConnectionView;

    open spec fn deep_view(&self) -> ParsedConnectionView {
        self.view()
    }
}

/// The lines of a text, split at every newline.
pub open spec fn spec_lines(s: Seq<char>) -> Seq<Seq<char>>
    decreases s.len(),
{
    let i = first_index_of_char(s, '\n');
    if i < 0 || i >= s.len() {
        seq![s]
    } else {
        seq![s.take(i)] + spec_lines(s.skip(i + 1))
    }
}

/// Index of the first whitespace character, or -1.
pub open spec fn first_space_index(s: Seq<char>) -> int
    decreases s.len(),
{
    if s.len() == 0 {
        -1
    } else if is_space_char(s[0]) {
        0
    } else {
        let r = first_space_index(s.drop_first());
        if r < 0 {
            -1
        } else {
            r + 1
        }
    }
}

/// The whitespace-separated tokens of a line, in order.
pub open spec fn spec_tokens(s: Seq<char>) -> Seq<Seq<char>>
    decreases s.len(),
{
    if s.len() == 0 {
        Seq::empty()
    } else if is_space_char(s[0]) {
        spec_tokens(s.drop_first())
    } else {
        let e = first_space_index(s);
        if e < 0 || e > s.len() {
            seq![s]
        } else {
            seq![s.take(e)] + spec_tokens(s.skip(e))
        }
    }
}

/// A dotted-quad octet: one to three digits, value at most 255.
pub open spec fn is_octet(s: Seq<char>) -> bool {
    1 <= s.len() <= 3 && all_digits(s) && digits_value(s) <= 255
}

/// A dotted-quad IPv4 address: four octets separated by dots.
pub open spec fn is_ipv4(s: Seq<char>) -> bool {
    let d1 = first_index_of_char(s, '.');
    if d1 < 0 {
        false
    } else {
        let o1 = s.take(d1);
        let r1 = s.skip(d1 + 1);
        let d2 = first_index_of_char(r1, '.');
        if d2 < 0 {
            false
        } else {
            let o2 = r1.take(d2);
            let r2 = r1.skip(d2 + 1);
            let d3 = first_index_of_char(r2, '.');
            if d3 < 0 {
                false
            } else {
                let o3 = r2.take(d3);
                let o4 = r2.skip(d3 + 1);
                is_octet(o1) && is_octet(o2) && is_octet(o3) && is_octet(o4)
            }
        }
    }
}

/// The connection a line's tokens describe, in one of three forms: a bare
/// address, an address with a colon port, or an address followed by a
/// username and a password.  Any other line describes none.
pub open spec fn spec_line_entry(toks: Seq<Seq<char>>) -> Option<ParsedConnectionView> {
    if toks.len() == 1 {
        let t = toks[0];
        if is_ipv4(t) {
            Some(ParsedConnectionView { host: t, port: None, username: None, password: None })
        } else {
            let ci = last_index_of_char(t, ':');
            if ci >= 0 && is_ipv4(t.take(ci)) && parse_u16_spec(t.skip(ci + 1)) is Some {
                Some(
                    ParsedConnectionView {
                        host: t.take(ci),
                        port: Some(parse_u16_spec(t.skip(ci + 1))->0),
                        username: None,
                        password: None,
                    },
                )
            } else {
                None
            }
        }
    } else if toks.len() == 3 {
        if is_ipv4(toks[0]) {
            Some(
                ParsedConnectionView {
                    host: toks[0],
                    port: None,
                    username: Some(toks[1]),
                    password: Some(toks[2]),
                },
            )
        } else {
            None
        }
    } else {
        None
    }
}

/// The connections described by a sequence of lines, in order.
pub open spec fn spec_entries(lines: Seq<Seq<char>>) -> Seq<ParsedConnectionView>
    decreases lines.len(),
{
    if lines.len() == 0 {
        Seq::empty()
    } else {
        match spec_line_entry(spec_tokens(lines[0])) {
            Some(e) => seq![e] + spec_entries(lines.drop_first()),
            None => spec_entries(lines.drop_first()),
        }
    }
}

/// The connections recognized in a whole text.
pub open spec fn spec_parse_connection_text(s: Seq<char>) -> Seq<ParsedConnectionView> {
    spec_entries(spec_lines(s))
}

/// If everything before `i` is no whitespace and the character at `i` is,
/// the first whitespace index is `i`.
proof fn lemma_first_space_found(s: Seq<char>, i: int)
    requires
        0 <= i < s.len(),
        is_space_char(s[i]),
        forall|k: int| 0 <= k < i ==> !is_space_char(s[k]),
    ensures
        first_space_index(s) == i,
    decreases i,
{
    if i > 0 {
        assert forall|k: int| 0 <= k < i - 1 implies !is_space_char(#[trigger] s.drop_first()[k])
            by {
            assert(s.drop_first()[k] == s[k + 1]);
        }
        assert(s.drop_first()[i - 1] == s[i]);
        lemma_first_space_found(s.drop_first(), i - 1);
    }
}

/// If no character is whitespace, the first whitespace index is -1.
proof fn lemma_first_space_missing(s: Seq<char>)
    requires
        forall|k: int| 0 <= k < s.len() ==> !is_space_char(s[k]),
    ensures
        first_space_index(s) == -1,
    decreases s.len(),
{
    if s.len() > 0 {
        assert forall|k: int|
            0 <= k < s.len() - 1 implies !is_space_char(#[trigger] s.drop_first()[k]) by {
            assert(s.drop_first()[k] == s[k + 1]);
        }
        lemma_first_space_missing(s.drop_first());
    }
}

/// Split a text into its lines.
#[verifier::loop_isolation(false)]
fn split_lines(s: &str) -> (r: Vec<String>)
    ensures
        r.deep_view() == spec_lines(s@),
{
    let n = s.unicode_len();
    let mut out: Vec<String> = Vec::new();
    let mut pos: usize = 0;
    proof {
        assert(out.deep_view() =~= Seq::<Seq<char>>::empty());
        assert(s@.skip(0) =~= s@);
        assert(out.deep_view() + spec_lines(s@) =~= spec_lines(s@));
    }
    loop
        invariant
            pos <= n,
            n == s@.len(),
            spec_lines(s@) == out.deep_view() + spec_lines(s@.skip(pos as int)),
        decreases n - pos,
    {
        proof {
            assert(s@.subrange(pos as int, n as int) =~= s@.skip(pos as int));
        }
        match first_char_in(s, pos, n, '\n') {
            Some(j) => {
                let line = s.substring_char(pos, j).to_owned();
                let ghost dv0 = out.deep_view();
                out.push(line);
                proof {
                    assert(out.deep_view() =~= dv0.push(line@));
                    assert(line@ =~= s@.skip(pos as int).take(j - pos));
                    assert(s@.skip(pos as int).skip(j - pos + 1) =~= s@.skip(j + 1 as int));
                    assert(spec_lines(s@) =~= out.deep_view() + spec_lines(s@.skip(j + 1 as int)));
                }
                pos = j + 1;
            },
            None => {
                let line = s.substring_char(pos, n).to_owned();
                let ghost dv0 = out.deep_view();
                out.push(line);
                proof {
                    assert(out.deep_view() =~= dv0.push(line@));
                    assert(line@ =~= s@.skip(pos as int));
                    assert(spec_lines(s@) =~= out.deep_view());
                }
                return out;
            },
        }
    }
}

/// Split a line into its whitespace-separated tokens.
#[verifier::loop_isolation(false)]
fn tokenize(line: &str) -> (r: Vec<String>)
    ensures
        r.deep_view() == spec_tokens(line@),
{
    let n = line.unicode_len();
    let mut out: Vec<String> = Vec::new();
    let mut pos: usize = 0;
    proof {
        assert(out.deep_view() =~= Seq::<Seq<char>>::empty());
        assert(line@.skip(0) =~= line@);
        assert(out.deep_view() + spec_tokens(line@) =~= spec_tokens(line@));
    }
    while pos < n
        invariant
            pos <= n,
            spec_tokens(line@) == out.deep_view() + spec_tokens(line@.skip(pos as int)),
        decreases n - pos,
    {
        if is_space(line.get_char(pos)) {
            proof {
                assert(line@.skip(pos as int)[0] == line@[pos as int]);
                assert(line@.skip(pos as int).drop_first() =~= line@.skip(pos + 1 as int));
            }
            pos = pos + 1;
        } else {
            let mut e: usize = pos;
            while e < n && !is_space(line.get_char(e))
                invariant
                    pos <= e <= n,
                    forall|k: int| pos <= k < e ==> !is_space_char(line@[k]),
                decreases n - e,
            {
                e = e + 1;
            }
            let tok = line.substring_char(pos, e).to_owned();
            let ghost dv0 = out.deep_view();
            out.push(tok);
            proof {
                let t = line@.skip(pos as int);
                assert(out.deep_view() =~= dv0.push(tok@));
                assert(t[0] == line@[pos as int]);
                assert forall|k: int| 0 <= k < e - pos implies !is_space_char(#[trigger] t[k]) by {
                    assert(t[k] == line@[pos + k]);
                }
                if e < n {
                    assert(t[e - pos] == line@[e as int]);
                    lemma_first_space_found(t, e - pos);
                    assert(tok@ =~= t.take(e - pos));
                    assert(t.skip(e - pos) =~= line@.skip(e as int));
                    assert(spec_tokens(line@) =~= out.deep_view() + spec_tokens(
                        line@.skip(e as int),
                    ));
                } else {
                    lemma_first_space_missing(t);
                    assert(tok@ =~= t);
                    assert(line@.skip(n as int) =~= Seq::<char>::empty());
                    assert(spec_tokens(line@) =~= out.deep_view() + spec_tokens(
                        line@.skip(e as int),
                    ));
                }
            }
            pos = e;
        }
    }
    proof {
        assert(line@.skip(n as int) =~= Seq::<char>::empty());
        assert(out.deep_view() + spec_tokens(line@.skip(n as int)) =~= out.deep_view());
    }
    out
}

/// Whether the characters within `[lo, hi)` form one octet.
#[verifier::loop_isolation(false)]
fn octet_check(s: &str, lo: usize, hi: usize) -> (r: bool)
    requires
        lo <= hi <= s@.len(),
    ensures
        r == is_octet(s@.subrange(lo as int, hi as int)),
{
    let ghost t = s@.subrange(lo as int, hi as int);
    let len = hi - lo;
    if len < 1 || len > 3 {
        return false;
    }
    let mut acc: u32 = 0;
    let mut i: usize = lo;
    while i < hi
        invariant
            lo <= i <= hi <= s@.len(),
            hi - lo <= 3,
            t == s@.subrange(lo as int, hi as int),
            forall|k: int| 0 <= k < i - lo ==> is_digit_char(t[k]),
            acc <= 999,
            i - lo == 0 ==> acc == 0,
            i - lo == 1 ==> acc <= 9,
            i - lo == 2 ==> acc <= 99,
            acc as int == digits_value(t.take(i - lo)),
        decreases hi - i,
    {
        let c = s.get_char(i);
        proof {
            assert(t[i - lo] == s@[i as int]);
        }
        let v = c as u32;
        if v < 48 || v > 57 {
            proof {
                assert(!is_digit_char(t[i - lo]));
                assert(!all_digits(t)) by {
                    assert(0 <= i - lo < t.len() && !is_digit_char(t[i - lo]));
                }
            }
            return false;
        }
        proof {
            assert(t.take(i - lo).push(t[i - lo]) =~= t.take(i + 1 - lo));
            assert(t.take(i + 1 - lo).drop_last() =~= t.take(i - lo));
        }
        acc = acc * 10 + (v - 48);
        i = i + 1;
    }
    proof {
        assert(t.take(hi - lo) =~= t);
    }
    acc <= 255
}

/// Whether the characters within `[lo, hi)` form a dotted-quad address.
fn ipv4_check(s: &str, lo: usize, hi: usize) -> (r: bool)
    requires
        lo <= hi <= s@.len(),
    ensures
        r == is_ipv4(s@.subrange(lo as int, hi as int)),
{
    let ghost t = s@.subrange(lo as int, hi as int);
    let d1 = match first_char_in(s, lo, hi, '.') {
        Some(j) => j,
        None => {
            return false;
        },
    };
    proof {
        assert(t.take(d1 - lo) =~= s@.subrange(lo as int, d1 as int));
        assert(t.skip(d1 - lo + 1) =~= s@.subrange(d1 + 1 as int, hi as int));
    }
    let ghost r1 = t.skip(d1 - lo + 1);
    let d2 = match first_char_in(s, d1 + 1, hi, '.') {
        Some(j) => j,
        None => {
            return false;
        },
    };
    proof {
        assert(r1.take(d2 - d1 - 1) =~= s@.subrange(d1 + 1 as int, d2 as int));
        assert(r1.skip(d2 - d1) =~= s@.subrange(d2 + 1 as int, hi as int));
    }
    let ghost r2 = r1.skip(d2 - d1);
    let d3 = match first_char_in(s, d2 + 1, hi, '.') {
        Some(j) => j,
        None => {
            return false;
        },
    };
    proof {
        assert(r2.take(d3 - d2 - 1) =~= s@.subrange(d2 + 1 as int, d3 as int));
        assert(r2.skip(d3 - d2) =~= s@.subrange(d3 + 1 as int, hi as int));
    }
    let o1 = octet_check(s, lo, d1);
    let o2 = octet_check(s, d1 + 1, d2);
    let o3 = octet_check(s, d2 + 1, d3);
    let o4 = octet_check(s, d3 + 1, hi);
    o1 && o2 && o3 && o4
}

/// The connection one line's tokens describe, if any.
fn line_entry(tokens: &Vec<String>) -> (r: Option<ParsedConnection>)
    ensures
        (match r {
            Some(c) => spec_line_entry(tokens.deep_view()) == Some(c@),
            None => spec_line_entry(tokens.deep_view()) is None,
        }),
{
    proof {
        assert(tokens.deep_view().len() == tokens@.len());
    }
    if tokens.len() == 1 {
        let tok = &tokens[0];
        let ghost t = tokens.deep_view()[0];
        proof {
            assert(t == tok@);
        }
        let n = tok.as_str().unicode_len();
        if ipv4_check(tok.as_str(), 0, n) {
            proof {
                assert(tok@.subrange(0, n as int) =~= tok@);
            }
            return Some(
                ParsedConnection { host: tok.clone(), port: None, username: None, password: None },
            );
        }
        proof {
            assert(tok@.subrange(0, n as int) =~= tok@);
        }
        match last_char_in(tok.as_str(), 0, n, ':') {
            Some(ci) => {
                proof {
                    assert(tok@.take(ci as int) =~= tok@.subrange(0, ci as int));
                    assert(tok@.skip(ci + 1 as int) =~= tok@.subrange(ci + 1 as int, n as int));
                }
                if !ipv4_check(tok.as_str(), 0, ci) {
                    return None;
                }
                match parse_port(tok.as_str(), ci + 1, n) {
                    Some(p) => {
                        let host = tok.as_str().substring_char(0, ci).to_owned();
                        proof {
                            assert(host@ =~= tok@.take(ci as int));
                        }
                        Some(
                            ParsedConnection {
                                host,
                                port: Some(p),
                                username: None,
                                password: None,
                            },
                        )
                    },
                    None => None,
                }
            },
            None => None,
        }
    } else if tokens.len() == 3 {
        let tok = &tokens[0];
        proof {
            assert(tokens.deep_view()[0] == tok@);
            assert(tokens.deep_view()[1] == tokens@[1]@);
            assert(tokens.deep_view()[2] == tokens@[2]@);
        }
        let n = tok.as_str().unicode_len();
        if ipv4_check(tok.as_str(), 0, n) {
            proof {
                assert(tok@.subrange(0, n as int) =~= tok@);
            }
            Some(
                ParsedConnection {
                    host: tok.clone(),
                    port: None,
                    username: Some(tokens[1].clone()),
                    password: Some(tokens[2].clone()),
                },
            )
        } else {
            proof {
                assert(tok@.subrange(0, n as int) =~= tok@);
            }
            None
        }
    } else {
        None
    }
}

/// Recognize connections in free-form text: each line may describe one, as
/// a bare dotted-quad address, an address with a colon port, or an address
/// followed by a username and a password.
pub fn parse_connection_text(input: &str) -> (r: Vec<ParsedConnection>)
    ensures
        r.deep_view() == spec_parse_connection_text(input@),
{
    let lines = split_lines(input);
    let ghost lv = lines.deep_view();
    let mut out: Vec<ParsedConnection> = Vec::new();
    let mut i: usize = 0;
    proof {
        assert(out.deep_view() =~= Seq::<ParsedConnectionView>::empty());
        assert(lv.skip(0) =~= lv);
        assert(out.deep_view() + spec_entries(lv) =~= spec_entries(lv));
    }
    while i < lines.len()
        invariant
            i <= lines@.len(),
            lv == lines.deep_view(),
            lv.len() == lines@.len(),
            forall|k: int| 0 <= k < lines@.len() ==> lv[k] == lines@[k]@,
            lv == spec_lines(input@),
            spec_entries(lv) == out.deep_view() + spec_entries(lv.skip(i as int)),
        decreases lines@.len() - i,
    {
        let tokens = tokenize(lines[i].as_str());
        let entry = line_entry(&tokens);
        proof {
            assert(lv.skip(i as int)[0] == lv[i as int]);
            assert(lv.skip(i as int).drop_first() =~= lv.skip(i + 1 as int));
        }
        match entry {
            Some(c) => {
                let ghost dv0 = out.deep_view();
                let ghost cv = c@;
                out.push(c);
                proof {
                    assert(out.deep_view() =~= dv0.push(cv));
                    assert(spec_entries(lv) =~= out.deep_view() + spec_entries(
                        lv.skip(i + 1 as int),
                    ));
                }
            },
            None => {
                proof {
                    assert(spec_entries(lv) =~= out.deep_view() + spec_entries(
                        lv.skip(i + 1 as int),
                    ));
                }
            },
        }
        i = i + 1;
    }
    proof {
        assert(lv.skip(lv.len() as int) =~= Seq::<Seq<char>>::empty());
        assert(out.deep_view() + spec_entries(lv.skip(lv.len() as int)) =~= out.deep_view());
    }
    out
}

/// Parse a quick-entry host string into host, port and optional username.
pub fn parse_ssh_host_string(input: &str) -> (r: (String, u16, Option<String>))
    ensures
        ({
            let (host, port, user) = spec_parse_ssh_host(input@);
            &&& r.0@ == host
            &&& r.1 == port
            &&& view_opt_string(r.2) == user
        }),
{
    let (start, end) = trim_bounds(input);
    let ghost t = trim_spec(input@);
    let colon = last_char_in(input, start, end, ':');
    let (ulo, uhi, port): (usize, usize, u16) = match colon {
        Some(cj) => {
            proof {
                assert(t.skip(cj - start + 1) =~= input@.subrange(cj + 1 as int, end as int));
                assert(t.take(cj - start) =~= input@.subrange(start as int, cj as int));
            }
            match parse_port(input, cj + 1, end) {
                Some(p) => (start, cj, p),
                None => (start, end, 22),
            }
        },
        None => (start, end, 22),
    };
    let ghost u = input@.subrange(ulo as int, uhi as int);
    proof {
        assert(u =~= (if last_index_of_char(t, ':') >= 0 && parse_u16_spec(
            t.skip(last_index_of_char(t, ':') + 1),
        ) is Some {
            t.take(last_index_of_char(t, ':'))
        } else {
            t
        }));
    }
    match first_char_in(input, ulo, uhi, '@') {
        Some(aj) => {
            let username = input.substring_char(ulo, aj).to_owned();
            let host = input.substring_char(aj + 1, uhi).to_owned();
            proof {
                assert(username@ =~= u.take(aj - ulo));
                assert(host@ =~= u.skip(aj - ulo + 1));
            }
            (host, port, Some(username))
        },
        None => {
            let host = input.substring_char(ulo, uhi).to_owned();
            proof {
                assert(host@ =~= u);
            }
            (host, port, None)
        },
    }
}

} // verus!
