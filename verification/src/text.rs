//! Line and substring primitives for scanning file content.
//!
//! Content is treated as a sequence of characters. Lines are the pieces
//! between newline characters, with a carriage return at the end of a
//! line dropped and no empty line after a trailing newline; trimming
//! removes leading and trailing whitespace characters.

use vstd::prelude::*;
use vstd::string::StrSliceExecFns;

verus! {

/// The characters counted as whitespace when a matched line is trimmed:
/// the ASCII spacing characters and the Unicode `White_Space` set.
pub open spec fn is_space_char(c: char) -> bool {
    ||| c == ' '
    ||| c == '\t'
    ||| c == '\n'
    ||| c == '\u{0B}'
    ||| c == '\u{0C}'
    ||| c == '\r'
    ||| c == '\u{85}'
    ||| c == '\u{A0}'
    ||| c == '\u{1680}'
    ||| c == '\u{2000}'
    ||| c == '\u{2001}'
    ||| c == '\u{2002}'
    ||| c == '\u{2003}'
    ||| c == '\u{2004}'
    ||| c == '\u{2005}'
    ||| c == '\u{2006}'
    ||| c == '\u{2007}'
    ||| c == '\u{2008}'
    ||| c == '\u{2009}'
    ||| c == '\u{200A}'
    ||| c == '\u{2028}'
    ||| c == '\u{2029}'
    ||| c == '\u{202F}'
    ||| c == '\u{205F}'
    ||| c == '\u{3000}'
}

/// Runtime check for [`is_space_char`].
pub fn is_space(c: char) -> (b: bool)
    ensures
        b == is_space_char(c),
{
    c == ' ' || c == '\t' || c == '\n' || c == '\u{0B}' || c == '\u{0C}' || c == '\r'
        || c == '\u{85}' || c == '\u{A0}' || c == '\u{1680}' || c == '\u{2000}' || c == '\u{2001}'
        || c == '\u{2002}' || c == '\u{2003}' || c == '\u{2004}' || c == '\u{2005}'
        || c == '\u{2006}' || c == '\u{2007}' || c == '\u{2008}' || c == '\u{2009}'
        || c == '\u{200A}' || c == '\u{2028}' || c == '\u{2029}' || c == '\u{202F}'
        || c == '\u{205F}' || c == '\u{3000}'
}

/// `s` without its leading whitespace.
pub open spec fn trim_start_spec(s: Seq<char>) -> Seq<char>
    decreases s.len(),
{
    if s.len() == 0 {
        s
    } else if is_space_char(s[0]) {
        trim_start_spec(s.drop_first())
    } else {
        s
    }
}

/// `s` without its trailing whitespace.
pub open spec fn trim_end_spec(s: Seq<char>) -> Seq<char>
    decreases s.len(),
{
    if s.len() == 0 {
        s
    } else if is_space_char(s.last()) {
        trim_end_spec(s.drop_last())
    } else {
        s
    }
}

/// `s` without leading and trailing whitespace.
pub open spec fn trim_spec(s: Seq<char>) -> Seq<char> {
    trim_end_spec(trim_start_spec(s))
}

/// The needle occurs in the haystack starting at position `i`.
pub open spec fn contains_at(hay: Seq<char>, needle: Seq<char>, i: int) -> bool {
    &&& 0 <= i
    &&& i + needle.len() <= hay.len()
    &&& hay.subrange(i, i + needle.len() as int) == needle
}

/// The needle occurs somewhere in the haystack.
pub open spec fn contains_sub(hay: Seq<char>, needle: Seq<char>) -> bool {
    exists|i: int| contains_at(hay, needle, i)
}

/// Position of the first newline in `s`, or `s.len()` if there is none.
pub open spec fn line_break(s: Seq<char>) -> nat
    decreases s.len(),
{
    if s.len() == 0 {
        0
    } else if s[0] == '\n' {
        0
    } else {
        (1 + line_break(s.drop_first())) as nat
    }
}

/// `line_break` is the first newline position: it is in bounds, nothing
/// before it is a newline, and it lands on a newline unless there is none.
pub proof fn lemma_line_break(s: Seq<char>)
    ensures
        line_break(s) <= s.len(),
        forall|k: int| 0 <= k < line_break(s) ==> s[k] != '\n',
        line_break(s) < s.len() ==> s[line_break(s) as int] == '\n',
    decreases s.len(),
{
    if s.len() == 0 {
    } else if s[0] == '\n' {
    } else {
        lemma_line_break(s.drop_first());
        assert forall|k: int| 0 <= k < line_break(s) implies s[k] != '\n' by {
            if k > 0 {
                assert(s.drop_first()[k - 1] != '\n');
            }
        }
    }
}

/// A position that is preceded by no newline and is either a newline or
/// the end is exactly `line_break`.
pub proof fn lemma_line_break_unique(s: Seq<char>, i: int)
    requires
        0 <= i <= s.len(),
        forall|k: int| 0 <= k < i ==> s[k] != '\n',
        i < s.len() ==> s[i] == '\n',
    ensures
        line_break(s) == i,
{
    lemma_line_break(s);
    let b = line_break(s) as int;
    if b < i {
        assert(s[b] != '\n');
    } else if i < b {
        assert(s[i] != '\n');
    }
}

/// A line with a trailing carriage return dropped.
pub open spec fn strip_cr(line: Seq<char>) -> Seq<char> {
    if line.len() > 0 && line.last() == '\r' {
        line.drop_last()
    } else {
        line
    }
}

/// The lines of `s`: the pieces between newlines, each with a trailing
/// carriage return dropped, and no empty line after a trailing newline.
pub open spec fn lines_spec(s: Seq<char>) -> Seq<Seq<char>>
    decreases s.len(),
{
    if s.len() == 0 {
        Seq::empty()
    } else {
        let i = if line_break(s) <= s.len() {
            line_break(s) as int
        } else {
            s.len() as int
        };
        let line = strip_cr(s.subrange(0, i));
        if i == s.len() {
            seq![line]
        } else {
            seq![line] + lines_spec(s.subrange(i + 1, s.len() as int))
        }
    }
}

/// The characters of `s` as a vector, for random access while scanning.
pub fn str_to_chars(s: &str) -> (v: Vec<char>)
    ensures
        v@ == s@,
{
    let n = s.unicode_len();
    let mut v: Vec<char> = Vec::new();
    let mut i: usize = 0;
    while i < n
        invariant
            i <= n,
            n == s@.len(),
            v@ == s@.subrange(0, i as int),
        decreases n - i,
    {
        let c = s.get_char(i);
        v.push(c);
        proof {
            assert(v@ =~= s@.subrange(0, (i + 1) as int));
        }
        i = i + 1;
    }
    proof {
        assert(v@ =~= s@);
    }
    v
}

/// Position of the first newline at or after `start`, or the length of
/// the content if there is none; phrased against the suffix so callers
/// can unfold [`lines_spec`] one line at a time.
pub fn find_line_end(chars: &Vec<char>, start: usize) -> (end: usize)
    requires
        start <= chars@.len(),
    ensures
        start <= end <= chars@.len(),
        end - start == line_break(chars@.subrange(start as int, chars@.len() as int)),
{
    let ghost suffix = chars@.subrange(start as int, chars@.len() as int);
    let n = chars.len();
    let mut end = start;
    while end < n && chars[end] != '\n'
        invariant
            start <= end <= n,
            n == chars@.len(),
            forall|k: int| start <= k < end ==> chars@[k] != '\n',
        decreases n - end,
    {
        end = end + 1;
    }
    proof {
        assert forall|k: int| 0 <= k < end - start implies suffix[k] != '\n' by {
            assert(suffix[k] == chars@[start + k]);
        }
        if end < n {
            assert(suffix[end - start] == chars@[end as int]);
        }
        lemma_line_break_unique(suffix, end - start);
    }
    end
}

/// Whether `query` occurs at position `at` of `chars`.
fn range_eq(chars: &Vec<char>, at: usize, query: &Vec<char>) -> (b: bool)
    requires
        at + query@.len() <= chars@.len(),
    ensures
        b == (chars@.subrange(at as int, at + query@.len()) == query@),
{
    let q_len = query.len();
    let clen = chars.len();
    let mut j: usize = 0;
    while j < q_len
        invariant
            j <= q_len,
            q_len == query@.len(),
            at + q_len <= chars@.len(),
            chars@.len() == clen,
            forall|l: int| 0 <= l < j ==> chars@[at + l] == query@[l],
        decreases q_len - j,
    {
        if chars[at + j] != query[j] {
            proof {
                assert(chars@.subrange(at as int, at + query@.len())[j as int] == chars@[at + j]);
            }
            return false;
        }
        j = j + 1;
    }
    proof {
        assert(chars@.subrange(at as int, at + query@.len()) =~= query@);
    }
    true
}

/// Whether the query occurs in `chars[from..to]`.
pub fn contains_in_range(chars: &Vec<char>, from: usize, to: usize, query: &Vec<char>) -> (b: bool)
    requires
        from <= to <= chars@.len(),
    ensures
        b == contains_sub(chars@.subrange(from as int, to as int), query@),
{
    let ghost hay = chars@.subrange(from as int, to as int);
    let hay_len = to - from;
    let q_len = query.len();
    if q_len == 0 {
        proof {
            assert(hay.subrange(0, 0) =~= query@);
            assert(contains_at(hay, query@, 0));
        }
        return true;
    }
    if q_len > hay_len {
        proof {
            assert forall|i: int| !contains_at(hay, query@, i) by {}
        }
        return false;
    }
    let limit = hay_len - q_len;
    let mut i: usize = 0;
    let mut found = false;
    while !found && i <= limit
        invariant
            i <= limit + 1,
            limit == hay_len - q_len,
            1 <= q_len == query@.len(),
            hay_len == hay.len(),
            hay == chars@.subrange(from as int, to as int),
            from <= to <= chars@.len(),
            !found ==> forall|k: int| 0 <= k < i ==> !contains_at(hay, query@, k),
            found ==> contains_sub(hay, query@),
        decreases limit + 1 - i,
    {
        let ok = range_eq(chars, from + i, query);
        proof {
            assert(hay.subrange(i as int, i + q_len as int) =~= chars@.subrange(
                (from + i) as int,
                from + i + query@.len(),
            ));
            assert(ok == contains_at(hay, query@, i as int));
        }
        if ok {
            found = true;
        }
        i = i + 1;
    }
    proof {
        if !found {
            assert forall|k: int| !contains_at(hay, query@, k) by {
                if 0 <= k <= limit {
                    assert(!contains_at(hay, query@, k));
                }
            }
        }
    }
    found
}

/// Whitespace up to `k` and none at `k` pins down `trim_start_spec` as
/// the suffix from `k`.
pub proof fn lemma_trim_start_index(s: Seq<char>, k: int)
    requires
        0 <= k <= s.len(),
        forall|j: int| 0 <= j < k ==> is_space_char(s[j]),
        k == s.len() || !is_space_char(s[k]),
    ensures
        trim_start_spec(s) == s.subrange(k, s.len() as int),
    decreases k,
{
    if k == 0 {
        if s.len() == 0 {
            assert(s.subrange(0, 0) =~= s);
        } else if !is_space_char(s[0]) {
            assert(s.subrange(0, s.len() as int) =~= s);
        } else {
            assert(k < s.len() && !is_space_char(s[k]));
        }
    } else {
        assert(is_space_char(s[0]));
        let t = s.drop_first();
        assert forall|j: int| 0 <= j < k - 1 implies is_space_char(t[j]) by {
            assert(t[j] == s[j + 1]);
        }
        if k - 1 < t.len() {
            assert(t[k - 1] == s[k]);
        }
        lemma_trim_start_index(t, k - 1);
        assert(t.subrange(k - 1, t.len() as int) =~= s.subrange(k, s.len() as int));
    }
}

/// No whitespace just before `h` and only whitespace from `h` on pins
/// down `trim_end_spec` as the prefix up to `h`.
pub proof fn lemma_trim_end_index(s: Seq<char>, h: int)
    requires
        0 <= h <= s.len(),
        forall|j: int| h <= j < s.len() ==> is_space_char(s[j]),
        h == 0 || !is_space_char(s[h - 1]),
    ensures
        trim_end_spec(s) == s.subrange(0, h),
    decreases s.len() - h,
{
    if h == s.len() {
        if s.len() == 0 {
            assert(s.subrange(0, 0) =~= s);
        } else {
            assert(!is_space_char(s.last()));
            assert(s.subrange(0, s.len() as int) =~= s);
        }
    } else {
        assert(is_space_char(s.last()));
        let t = s.drop_last();
        assert forall|j: int| h <= j < t.len() implies is_space_char(t[j]) by {
            assert(t[j] == s[j]);
        }
        if h > 0 {
            assert(t[h - 1] == s[h - 1]);
        }
        lemma_trim_end_index(t, h);
        assert(t.subrange(0, h) =~= s.subrange(0, h));
    }
}

} // verus!
