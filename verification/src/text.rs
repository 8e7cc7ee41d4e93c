//! Character-level text helpers shared by the rest of the library.

use vstd::prelude::*;

verus! {

/// A carriage return or a line feed.
pub open spec fn is_newline(c: char) -> bool {
    c == '\r' || c == '\n'
}

/// `s` with every trailing carriage return and line feed removed.
pub open spec fn trim_newlines(s: Seq<char>) -> Seq<char>
    decreases s.len(),
{
    if s.len() > 0 && is_newline(s.last()) {
        trim_newlines(s.drop_last())
    } else {
        s
    }
}

/// Removes every carriage return and line feed from the end of `s`
/// and keeps everything before them.
pub fn trim_trailing_newlines(s: &str) -> (res: String)
    ensures
        res@ == trim_newlines(s@),
{
    let len = s.unicode_len();
    let mut end: usize = len;
    assert(s@.take(len as int) =~= s@);
    while end > 0
        invariant
            end <= len,
            len == s@.len(),
            trim_newlines(s@) == trim_newlines(s@.take(end as int)),
        ensures
            end <= len,
            trim_newlines(s@) == trim_newlines(s@.take(end as int)),
            end > 0 ==> !is_newline(s@[end - 1]),
        decreases end,
    {
        let c = s.get_char(end - 1);
        if c != '\r' && c != '\n' {
            break;
        }
        assert(s@.take(end as int).drop_last() =~= s@.take(end - 1));
        end = end - 1;
    }
    assert(trim_newlines(s@.take(end as int)) == s@.take(end as int));
    s.substring_char(0, end).to_string()
}

/// Trimming trailing newlines keeps a prefix of the input, removes only
/// carriage returns and line feeds, and leaves no newline at the end.
pub proof fn lemma_trim_newlines_shape(s: Seq<char>)
    ensures
        trim_newlines(s).len() <= s.len(),
        trim_newlines(s) == s.take(trim_newlines(s).len() as int),
        forall|i: int| trim_newlines(s).len() <= i < s.len() ==> #[trigger] is_newline(s[i]),
        trim_newlines(s).len() > 0 ==> !is_newline(trim_newlines(s).last()),
    decreases s.len(),
{
    if s.len() > 0 && is_newline(s.last()) {
        lemma_trim_newlines_shape(s.drop_last());
        let t = trim_newlines(s.drop_last());
        assert(s.drop_last().take(t.len() as int) =~= s.take(t.len() as int));
        assert forall|i: int| t.len() <= i < s.len() implies #[trigger] is_newline(s[i]) by {
            if i < s.len() - 1 {
                assert(s.drop_last()[i] == s[i]);
            }
        }
    } else {
        assert(s.take(s.len() as int) =~= s);
    }
}

/// Trimming trailing newlines a second time changes nothing.
pub proof fn lemma_trim_newlines_idempotent(s: Seq<char>)
    ensures
        trim_newlines(trim_newlines(s)) == trim_newlines(s),
{
    lemma_trim_newlines_shape(s);
}

/// A character with the Unicode `White_Space` property, the set that
/// `char::is_whitespace` and `str::trim` go by.
pub open spec fn is_unicode_whitespace(c: char) -> bool {
    let u = c as u32;
    ||| 0x9 <= u <= 0xd
    ||| u == 0x20
    ||| u == 0x85
    ||| u == 0xa0
    ||| u == 0x1680
    ||| 0x2000 <= u <= 0x200a
    ||| u == 0x2028
    ||| u == 0x2029
    ||| u == 0x202f
    ||| u == 0x205f
    ||| u == 0x3000
}

/// Whether `s` is empty once surrounding whitespace is trimmed, i.e. whether
/// it holds nothing but whitespace.
pub open spec fn is_blank_spec(s: Seq<char>) -> bool {
    forall|i: int| 0 <= i < s.len() ==> #[trigger] is_unicode_whitespace(s[i])
}

/// Whether `c` has the Unicode `White_Space` property.
pub fn is_whitespace_char(c: char) -> (res: bool)
    ensures
        res == is_unicode_whitespace(c),
{
    let u = c as u32;
    (0x9 <= u && u <= 0xd) || u == 0x20 || u == 0x85 || u == 0xa0 || u == 0x1680 || (0x2000
        <= u && u <= 0x200a) || u == 0x2028 || u == 0x2029 || u == 0x202f || u == 0x205f || u
        == 0x3000
}

/// Whether `s` trims to the empty string: every character is whitespace.
pub fn is_blank(s: &str) -> (res: bool)
    ensures
        res == is_blank_spec(s@),
{
    let len = s.unicode_len();
    let mut i: usize = 0;
    while i < len
        invariant
            i <= len,
            len == s@.len(),
            forall|j: int| 0 <= j < i ==> #[trigger] is_unicode_whitespace(s@[j]),
        decreases len - i,
    {
        if !is_whitespace_char(s.get_char(i)) {
            return false;
        }
        i = i + 1;
    }
    true
}

/// The characters of `s`, in order.
pub fn chars_of(s: &str) -> (res: Vec<char>)
    ensures
        res@ == s@,
{
    let len = s.unicode_len();
    let mut res: Vec<char> = Vec::new();
    let mut i: usize = 0;
    while i < len
        invariant
            i <= len,
            len == s@.len(),
            res@ == s@.take(i as int),
        decreases len - i,
    {
        res.push(s.get_char(i));
        assert(s@.take(i + 1) =~= s@.take(i as int).push(s@[i as int]));
        i = i + 1;
    }
    assert(s@.take(len as int) =~= s@);
    res
}

/// Calls `String::from_iter` on `chars`; std documents that collecting
/// characters concatenates them in order.
#[verifier::external_body]
pub(crate) fn string_from_chars(chars: Vec<char>) -> (res: String)
    ensures
        res@ == chars@,
{
    String::from_iter(chars)
}

/// `needle` occurs in `haystack` starting at position `at`.
pub open spec fn occurs_at(haystack: Seq<char>, needle: Seq<char>, at: int) -> bool {
    &&& 0 <= at
    &&& at + needle.len() <= haystack.len()
    &&& haystack.subrange(at, at + needle.len()) == needle
}

/// `needle` occurs somewhere in `haystack`, as `str::contains` with a string
/// pattern decides.
pub open spec fn contains_seq(haystack: Seq<char>, needle: Seq<char>) -> bool {
    exists|at: int| occurs_at(haystack, needle, at)
}

fn occurs_at_exec(haystack: &Vec<char>, needle: &Vec<char>, at: usize) -> (res: bool)
    requires
        at + needle@.len() <= haystack@.len(),
    ensures
        res == occurs_at(haystack@, needle@, at as int),
{
    let n = needle.len();
    let hl = haystack.len();
    let mut j: usize = 0;
    while j < n
        invariant
            j <= n,
            n == needle@.len(),
            hl == haystack@.len(),
            at + n <= hl,
            forall|k: int| 0 <= k < j ==> haystack@[at + k] == needle@[k],
        decreases n - j,
    {
        if haystack[at + j] != needle[j] {
            assert(haystack@.subrange(at as int, at + n)[j as int] != needle@[j as int]);
            return false;
        }
        j = j + 1;
    }
    assert(haystack@.subrange(at as int, at + n) =~= needle@);
    true
}

/// Whether `needle` occurs in `haystack`.
pub fn contains_str(haystack: &str, needle: &str) -> (res: bool)
    ensures
        res == contains_seq(haystack@, needle@),
{
    let h = chars_of(haystack);
    let n = chars_of(needle);
    if n.len() > h.len() {
        assert forall|at: int| !occurs_at(haystack@, needle@, at) by {}
        return false;
    }
    let last = h.len() - n.len();
    let mut at: usize = 0;
    while at <= last
        invariant
            h@ == haystack@,
            n@ == needle@,
            last + n@.len() == h@.len(),
            forall|k: int| 0 <= k < at ==> !occurs_at(haystack@, needle@, k),
        decreases last + 1 - at,
    {
        if occurs_at_exec(&h, &n, at) {
            return true;
        }
        if at == last {
            assert forall|k: int| !occurs_at(haystack@, needle@, k) by {
                if 0 <= k <= at {
                }
            }
            return false;
        }
        at = at + 1;
    }
    false
}

/// The empty string occurs in every string.
pub proof fn lemma_contains_empty(haystack: Seq<char>)
    ensures
        contains_seq(haystack, Seq::<char>::empty()),
{
    assert(haystack.subrange(0, 0) =~= Seq::<char>::empty());
    assert(occurs_at(haystack, Seq::<char>::empty(), 0));
}

} // verus!
