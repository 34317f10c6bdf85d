//! The lock file that keeps two instances from synchronising the same pair of locations.
use vstd::prelude::*;
use vstd::string::*;

verus! {

/// The text a lock file is named from, before separators are replaced:
/// `rust_sync_<local>_<remote>.pid`.
pub open spec fn lock_key(local_path: Seq<char>, remote_path: Seq<char>) -> Seq<char> {
    seq!['r', 'u', 's', 't', '_', 's', 'y', 'n', 'c', '_'] + local_path + seq!['_'] + remote_path
        + seq!['.', 'p', 'i', 'd']
}

/// `c` separates path components (`/` or `\`).
pub open spec fn is_separator(c: char) -> bool {
    c == '/' || c == '\\'
}

/// `s` with every path separator replaced by `_`.
pub open spec fn flatten_separators(s: Seq<char>) -> Seq<char> {
    s.map_values(|c: char| if is_separator(c) { '_' } else { c })
}

/// The file name of the lock for a local path and a remote path: the lock key with each `/`
/// and `\` replaced by `_`, so that it names a single file in the temporary directory.
pub fn lock_file_name(local_path: &str, remote_path: &str) -> (r: String)
    ensures
        r@ == flatten_separators(lock_key(local_path@, remote_path@)),
        !r@.contains('/'),
        !r@.contains('\\'),
{
    let head = "rust_sync_";
    let sep = "_";
    let tail = ".pid";
    proof {
        reveal_strlit("rust_sync_");
        reveal_strlit("_");
        reveal_strlit(".pid");
    }
    let mut key = String::from_str(head);
    key.append(local_path);
    key.append(sep);
    key.append(remote_path);
    key.append(tail);
    proof {
        assert(key@ =~= lock_key(local_path@, remote_path@));
    }
    let k = key.as_str();
    let n = k.unicode_len();
    let mut out = String::new();
    let mut i: usize = 0;
    while i < n
        invariant
            n == k@.len(),
            k@ == lock_key(local_path@, remote_path@),
            sep@ == seq!['_'],
            i <= n,
            out@ == flatten_separators(k@.subrange(0, i as int)),
        decreases n - i,
    {
        let c = k.get_char(i);
        if c == '/' || c == '\\' {
            out.append(sep);
        } else {
            out.append(k.substring_char(i, i + 1));
        }
        assert(k@.subrange(0, i + 1) =~= k@.subrange(0, i as int).push(c));
        assert(out@ =~= flatten_separators(k@.subrange(0, i + 1)));
        i = i + 1;
    }
    assert(k@.subrange(0, n as int) =~= k@);
    proof {
        assert forall|j: int| 0 <= j < out@.len() implies out@[j] != '/' && out@[j] != '\\' by {}
    }
    out
}

/// `c` has the Unicode `White_Space` property, as `char::is_whitespace` tests.
pub open spec fn is_white_space(c: char) -> bool {
    ||| '\u{9}' <= c <= '\u{d}'
    ||| c == ' '
    ||| c == '\u{85}'
    ||| c == '\u{a0}'
    ||| c == '\u{1680}'
    ||| '\u{2000}' <= c <= '\u{200a}'
    ||| c == '\u{2028}'
    ||| c == '\u{2029}'
    ||| c == '\u{202f}'
    ||| c == '\u{205f}'
    ||| c == '\u{3000}'
}

/// How many white-space characters `s` starts with.
pub open spec fn leading_white(s: Seq<char>) -> nat
    decreases s.len(),
{
    if s.len() > 0 && is_white_space(s[0]) {
        1 + leading_white(s.drop_first())
    } else {
        0
    }
}

/// How many white-space characters `s` ends with.
pub open spec fn trailing_white(s: Seq<char>) -> nat
    decreases s.len(),
{
    if s.len() > 0 && is_white_space(s.last()) {
        1 + trailing_white(s.drop_last())
    } else {
        0
    }
}

/// What `str::trim` leaves of `s`: `s` without its leading and trailing white space (empty
/// when `s` is all white space).
pub open spec fn trimmed(s: Seq<char>) -> Seq<char> {
    if leading_white(s) == s.len() {
        Seq::empty()
    } else {
        s.subrange(leading_white(s) as int, s.len() - trailing_white(s))
    }
}

/// `s` starts with exactly `i` white-space characters.
proof fn lemma_leading_white(s: Seq<char>, i: int)
    requires
        0 <= i <= s.len(),
        forall|j: int| 0 <= j < i ==> is_white_space(#[trigger] s[j]),
        i == s.len() || !is_white_space(s[i]),
    ensures
        leading_white(s) == i,
    decreases s.len(),
{
    if i > 0 {
        assert(is_white_space(s[0]));
        assert forall|j: int| 0 <= j < i - 1 implies is_white_space(#[trigger] s.drop_first()[j]) by {
            assert(s.drop_first()[j] == s[j + 1]);
        }
        lemma_leading_white(s.drop_first(), i - 1);
    }
}

/// `s` ends with exactly `s.len() - j` white-space characters.
proof fn lemma_trailing_white(s: Seq<char>, j: int)
    requires
        0 <= j <= s.len(),
        forall|k: int| j <= k < s.len() ==> is_white_space(#[trigger] s[k]),
        j == 0 || !is_white_space(s[j - 1]),
    ensures
        trailing_white(s) == s.len() - j,
    decreases s.len(),
{
    if j < s.len() {
        assert(is_white_space(s[s.len() - 1]));
        assert forall|k: int| j <= k < s.len() - 1 implies is_white_space(#[trigger] s.drop_last()[k]) by {
            assert(s.drop_last()[k] == s[k]);
        }
        lemma_trailing_white(s.drop_last(), j);
    }
}

/// Whether `c` is white space.
fn white_space(c: char) -> (b: bool)
    ensures
        b == is_white_space(c),
{
    ('\u{9}' <= c && c <= '\u{d}') || c == ' ' || c == '\u{85}' || c == '\u{a0}' || c == '\u{1680}'
        || ('\u{2000}' <= c && c <= '\u{200a}') || c == '\u{2028}' || c == '\u{2029}' || c
        == '\u{202f}' || c == '\u{205f}' || c == '\u{3000}'
}

/// `s` without its leading and trailing white space, as `str::trim` gives it.
pub fn trim_white_space(s: &str) -> (r: &str)
    ensures
        r@ == trimmed(s@),
{
    let n = s.unicode_len();
    let mut start: usize = 0;
    while start < n && white_space(s.get_char(start))
        invariant
            n == s@.len(),
            start <= n,
            forall|j: int| 0 <= j < start ==> is_white_space(#[trigger] s@[j]),
        decreases n - start,
    {
        start = start + 1;
    }
    proof {
        lemma_leading_white(s@, start as int);
    }
    if start == n {
        return s.substring_char(n, n);
    }
    let mut end: usize = n;
    while end > start && white_space(s.get_char(end - 1))
        invariant
            n == s@.len(),
            start < end <= n,
            !is_white_space(s@[start as int]),
            forall|k: int| end <= k < n ==> is_white_space(#[trigger] s@[k]),
        decreases end,
    {
        end = end - 1;
    }
    proof {
        lemma_trailing_white(s@, end as int);
    }
    s.substring_char(start, end)
}

/// `c` is an ASCII decimal digit.
pub open spec fn is_decimal_digit(c: char) -> bool {
    '0' <= c <= '9'
}

/// The value of a string of decimal digits.
pub open spec fn decimal_value(s: Seq<char>) -> nat
    decreases s.len(),
{
    if s.len() == 0 {
        0
    } else {
        decimal_value(s.drop_last()) * 10 + (s.last() as nat - '0' as nat) as nat
    }
}

/// The digits of a number text: without one leading `+`, if there is one.
pub open spec fn unsigned_digits(s: Seq<char>) -> Seq<char> {
    if s.len() > 0 && s[0] == '+' {
        s.drop_first()
    } else {
        s
    }
}

/// What `u32::from_str` gives: an optional `+` followed by at least one ASCII digit, with a
/// value that fits in a `u32`; anything else is refused.
pub open spec fn parsed_u32(s: Seq<char>) -> Option<u32> {
    let d = unsigned_digits(s);
    if d.len() > 0 && (forall|i: int| 0 <= i < d.len() ==> is_decimal_digit(#[trigger] d[i]))
        && decimal_value(d) <= u32::MAX {
        Some(decimal_value(d) as u32)
    } else {
        None
    }
}

/// A longer string of digits is worth at least as much as its prefix.
proof fn lemma_decimal_value_grows(s: Seq<char>, k: int)
    requires
        0 <= k <= s.len(),
        forall|i: int| 0 <= i < s.len() ==> is_decimal_digit(#[trigger] s[i]),
    ensures
        decimal_value(s.subrange(0, k)) <= decimal_value(s),
    decreases s.len(),
{
    if k < s.len() {
        assert(s.drop_last().subrange(0, k) =~= s.subrange(0, k));
        assert forall|i: int| 0 <= i < s.drop_last().len() implies is_decimal_digit(
            #[trigger] s.drop_last()[i],
        ) by {
            assert(s.drop_last()[i] == s[i]);
        }
        lemma_decimal_value_grows(s.drop_last(), k);
    } else {
        assert(s.subrange(0, k) =~= s);
    }
}

/// Reads a decimal `u32` the way `u32::from_str` does.
fn parse_decimal_u32(s: &str) -> (r: Option<u32>)
    ensures
        r == parsed_u32(s@),
{
    let n = s.unicode_len();
    let start: usize = if n > 0 && s.get_char(0) == '+' {
        1
    } else {
        0
    };
    let ghost d = unsigned_digits(s@);
    proof {
        assert(d =~= s@.subrange(start as int, n as int));
    }
    if start == n {
        return None;
    }
    let mut i: usize = start;
    while i < n
        invariant
            n == s@.len(),
            start <= i <= n,
            d == s@.subrange(start as int, n as int),
            d == unsigned_digits(s@),
            forall|j: int| 0 <= j < i - start ==> is_decimal_digit(#[trigger] d[j]),
        decreases n - i,
    {
        let c = s.get_char(i);
        if !('0' <= c && c <= '9') {
            assert(d[i - start] == c);
            assert(!is_decimal_digit(d[i - start]));
            return None;
        }
        assert(d[i - start] == c);
        i = i + 1;
    }
    let mut value: u64 = 0;
    let mut i: usize = start;
    while i < n
        invariant
            n == s@.len(),
            start <= i <= n,
            d == s@.subrange(start as int, n as int),
            d == unsigned_digits(s@),
            forall|j: int| 0 <= j < d.len() ==> is_decimal_digit(#[trigger] d[j]),
            value == decimal_value(d.subrange(0, i - start)),
            value <= u32::MAX,
        decreases n - i,
    {
        let c = s.get_char(i);
        assert(c == d[i - start]);
        assert(is_decimal_digit(d[i - start]));
        let digit: u64 = (c as u32 - '0' as u32) as u64;
        assert(d.subrange(0, i + 1 - start).drop_last() =~= d.subrange(0, i - start));
        let next = value * 10 + digit;
        assert(next == decimal_value(d.subrange(0, i + 1 - start)));
        if next > u32::MAX as u64 {
            proof {
                lemma_decimal_value_grows(d, i + 1 - start);
                assert(decimal_value(d) > u32::MAX);
                assert(parsed_u32(s@) is None);
            }
            return None;
        }
        value = next;
        i = i + 1;
    }
    assert(d.subrange(0, n - start) =~= d);
    Some(value as u32)
}

/// The process id recorded in a lock file: its text with surrounding white space trimmed,
/// read as a decimal `u32`; `None` when it does not read as one.
pub fn recorded_pid(text: &str) -> (r: Option<u32>)
    ensures
        r == parsed_u32(trimmed(text@)),
{
    parse_decimal_u32(trim_white_space(text))
}

/// What the lock file says of another instance.
#[derive(Debug, PartialEq, Eq, Structural)]
pub enum LockVerdict {
    /// A live process with this id holds the lock: this instance must not run.
    HeldBy(u32),
    /// The lock is free to take: this instance records its own process id.
    Free,
}

/// Decides the lock from the process id recorded in the lock file (if one could be read) and
/// whether that process is alive: held only by a recorded process that is alive.
pub fn lock_verdict(recorded: Option<u32>, alive: bool) -> (v: LockVerdict)
    ensures
        v == (match recorded {
            Some(pid) => if alive {
                LockVerdict::HeldBy(pid)
            } else {
                LockVerdict::Free
            },
            None => LockVerdict::Free,
        }),
{
    match recorded {
        Some(pid) => if alive {
            LockVerdict::HeldBy(pid)
        } else {
            LockVerdict::Free
        },
        None => LockVerdict::Free,
    }
}

} // verus!
