//! Character classification and plain text operations: searching, trimming,
//! splitting and replacement, each with a specification-level model.

use vstd::prelude::*;
use vstd::string::*;

verus! {

/// True for characters with the Unicode `White_Space` property, the class
/// that trimming and whitespace skipping go by.
pub open spec fn is_space_char(c: char) -> bool {
    c == ' ' || c == '\t' || c == '\n' || c == '\u{b}' || c == '\u{c}' || c == '\r'
        || c == '\u{85}' || c == '\u{a0}' || c == '\u{1680}'
        || (c as u32 >= 0x2000 && c as u32 <= 0x200a)
        || c == '\u{2028}' || c == '\u{2029}' || c == '\u{202f}' || c == '\u{205f}'
        || c == '\u{3000}'
}

/// Identifier characters: ASCII letters, digits and underscore. The
/// identifier grammar is deliberately ASCII; a snippet declaring an
/// identifier with non-ASCII word characters does not match it.
pub open spec fn is_word_char(c: char) -> bool {
    (c as u32 >= 'a' as u32 && c as u32 <= 'z' as u32)
        || (c as u32 >= 'A' as u32 && c as u32 <= 'Z' as u32)
        || (c as u32 >= '0' as u32 && c as u32 <= '9' as u32)
        || c == '_'
}

/// ASCII decimal digits. Version numbers are deliberately ASCII, as
/// integer literals are.
pub open spec fn is_digit_char(c: char) -> bool {
    c as u32 >= '0' as u32 && c as u32 <= '9' as u32
}

/// Executable test matching `is_space_char`.
pub fn char_is_space(c: char) -> (r: bool)
    ensures
        r == is_space_char(c),
{
    c == ' ' || c == '\t' || c == '\n' || c == '\u{b}' || c == '\u{c}' || c == '\r'
        || c == '\u{85}' || c == '\u{a0}' || c == '\u{1680}'
        || (c as u32 >= 0x2000 && c as u32 <= 0x200a)
        || c == '\u{2028}' || c == '\u{2029}' || c == '\u{202f}' || c == '\u{205f}'
        || c == '\u{3000}'
}

/// Executable test matching `is_word_char`.
pub fn char_is_word(c: char) -> (r: bool)
    ensures
        r == is_word_char(c),
{
    let u = c as u32;
    (u >= 'a' as u32 && u <= 'z' as u32) || (u >= 'A' as u32 && u <= 'Z' as u32)
        || (u >= '0' as u32 && u <= '9' as u32) || c == '_'
}

/// Executable test matching `is_digit_char`.
pub fn char_is_digit(c: char) -> (r: bool)
    ensures
        r == is_digit_char(c),
{
    let u = c as u32;
    u >= '0' as u32 && u <= '9' as u32
}

/// Position of the first occurrence of `c` in `s` at or after index `i`.
pub open spec fn find_from(s: Seq<char>, c: char, i: int) -> Option<int>
    decreases s.len() - i,
{
    if i < 0 || i >= s.len() {
        None
    } else if s[i] == c {
        Some(i)
    } else {
        find_from(s, c, i + 1)
    }
}

/// The found index points at `c`, lies in range, and nothing before it
/// (from the search start) is `c`.
pub proof fn lemma_find_from_properties(s: Seq<char>, c: char, i: int)
    requires
        0 <= i <= s.len(),
    ensures
        find_from(s, c, i) matches Some(j) ==> i <= j < s.len() && s[j] == c && (forall|k: int|
            i <= k < j ==> s[k] != c),
        find_from(s, c, i) is None ==> forall|k: int| i <= k < s.len() ==> s[k] != c,
    decreases s.len() - i,
{
    if i < s.len() && s[i] != c {
        lemma_find_from_properties(s, c, i + 1);
    }
}

/// Executable search matching `find_from`.
pub fn find_char(s: &str, c: char, from: usize) -> (r: Option<usize>)
    requires
        from <= s@.len(),
    ensures
        match r {
            Some(j) => find_from(s@, c, from as int) == Some(j as int),
            None => find_from(s@, c, from as int) is None,
        },
{
    let n = s.unicode_len();
    let mut i: usize = from;
    while i < n
        invariant
            from <= i <= n,
            n == s@.len(),
            find_from(s@, c, from as int) == find_from(s@, c, i as int),
        decreases n - i,
    {
        if s.get_char(i) == c {
            return Some(i);
        }
        i = i + 1;
    }
    None
}

/// `s` with its leading whitespace removed.
pub open spec fn trim_start_spec(s: Seq<char>) -> Seq<char>
    decreases s.len(),
{
    if s.len() > 0 && is_space_char(s[0]) {
        trim_start_spec(s.drop_first())
    } else {
        s
    }
}

/// `s` with its trailing whitespace removed.
pub open spec fn trim_end_spec(s: Seq<char>) -> Seq<char>
    decreases s.len(),
{
    if s.len() > 0 && is_space_char(s.last()) {
        trim_end_spec(s.drop_last())
    } else {
        s
    }
}

/// `s` with whitespace removed from both ends.
pub open spec fn trim_spec(s: Seq<char>) -> Seq<char> {
    trim_end_spec(trim_start_spec(s))
}

/// First index at or after `i` holding a non-whitespace character
/// (or the length of `s`).
pub open spec fn skip_spaces(s: Seq<char>, i: int) -> int
    decreases s.len() - i,
{
    if i < 0 || i >= s.len() || !is_space_char(s[i]) {
        i
    } else {
        skip_spaces(s, i + 1)
    }
}

/// `skip_spaces` stays in range, skips only whitespace, and stops at a
/// non-whitespace character.
pub proof fn lemma_skip_spaces_properties(s: Seq<char>, i: int)
    requires
        0 <= i <= s.len(),
    ensures
        i <= skip_spaces(s, i) <= s.len(),
        forall|k: int| i <= k < skip_spaces(s, i) ==> is_space_char(s[k]),
        skip_spaces(s, i) < s.len() ==> !is_space_char(s[skip_spaces(s, i)]),
    decreases s.len() - i,
{
    if i < s.len() && is_space_char(s[i]) {
        lemma_skip_spaces_properties(s, i + 1);
    }
}

/// Executable whitespace skip matching `skip_spaces`.
pub fn skip_spaces_exec(s: &str, from: usize) -> (r: usize)
    requires
        from <= s@.len(),
    ensures
        r == skip_spaces(s@, from as int),
        from <= r <= s@.len(),
{
    let n = s.unicode_len();
    let mut i: usize = from;
    while i < n && char_is_space(s.get_char(i))
        invariant
            from <= i <= n,
            n == s@.len(),
            skip_spaces(s@, from as int) == skip_spaces(s@, i as int),
        decreases n - i,
    {
        i = i + 1;
    }
    i
}

/// End of the run of identifier characters starting at `i`.
pub open spec fn word_run_end(s: Seq<char>, i: int) -> int
    decreases s.len() - i,
{
    if i < 0 || i >= s.len() || !is_word_char(s[i]) {
        i
    } else {
        word_run_end(s, i + 1)
    }
}

/// Executable word-run scan matching `word_run_end`.
pub fn word_run_end_exec(s: &str, from: usize) -> (r: usize)
    requires
        from <= s@.len(),
    ensures
        r == word_run_end(s@, from as int),
        from <= r <= s@.len(),
{
    let n = s.unicode_len();
    let mut i: usize = from;
    while i < n && char_is_word(s.get_char(i))
        invariant
            from <= i <= n,
            n == s@.len(),
            word_run_end(s@, from as int) == word_run_end(s@, i as int),
        decreases n - i,
    {
        i = i + 1;
    }
    i
}

/// Trimmed copy of `s`, matching `trim_spec`.
pub fn trim_str(s: &str) -> (r: String)
    ensures
        r@ == trim_spec(s@),
{
    let n = s.unicode_len();
    proof {
        assert(s@.subrange(0, n as int) =~= s@);
    }
    let mut a: usize = 0;
    while a < n && char_is_space(s.get_char(a))
        invariant
            0 <= a <= n,
            n == s@.len(),
            trim_start_spec(s@) == trim_start_spec(s@.subrange(a as int, n as int)),
        decreases n - a,
    {
        proof {
            let sub = s@.subrange(a as int, n as int);
            assert(sub.drop_first() =~= s@.subrange(a as int + 1, n as int));
        }
        a = a + 1;
    }
    proof {
        assert(s@.subrange(0, n as int) =~= s@);
        if a == n {
            assert(s@.subrange(a as int, n as int) =~= Seq::<char>::empty());
        }
        assert(trim_start_spec(s@) == s@.subrange(a as int, n as int));
    }
    let mut b: usize = n;
    while b > a && char_is_space(s.get_char(b - 1))
        invariant
            a <= b <= n,
            n == s@.len(),
            trim_start_spec(s@) == s@.subrange(a as int, n as int),
            trim_end_spec(s@.subrange(a as int, n as int)) == trim_end_spec(
                s@.subrange(a as int, b as int),
            ),
        decreases b,
    {
        proof {
            let sub = s@.subrange(a as int, b as int);
            assert(sub.last() == s@[b - 1]);
            assert(sub.drop_last() =~= s@.subrange(a as int, b as int - 1));
        }
        b = b - 1;
    }
    proof {
        if b == a {
            assert(s@.subrange(a as int, b as int) =~= Seq::<char>::empty());
        } else {
            assert(s@.subrange(a as int, b as int).last() == s@[b - 1]);
        }
        assert(trim_spec(s@) == s@.subrange(a as int, b as int));
    }
    let piece = s.substring_char(a, b);
    String::from_str(piece)
}

/// `s` with every occurrence of `c` replaced by the sequence `to`.
pub open spec fn replace_spec(s: Seq<char>, c: char, to: Seq<char>) -> Seq<char>
    decreases s.len(),
{
    if s.len() == 0 {
        Seq::<char>::empty()
    } else {
        replace_spec(s.drop_last(), c, to) + (if s.last() == c {
            to
        } else {
            seq![s.last()]
        })
    }
}

/// Copy of `s` with every occurrence of `c` replaced by `to`,
/// matching `replace_spec`.
pub fn replace_char_with(s: &str, c: char, to: &str) -> (r: String)
    ensures
        r@ == replace_spec(s@, c, to@),
{
    let n = s.unicode_len();
    let mut out = String::new();
    let mut i: usize = 0;
    while i < n
        invariant
            0 <= i <= n,
            n == s@.len(),
            out@ == replace_spec(s@.subrange(0, i as int), c, to@),
        decreases n - i,
    {
        let ch = s.get_char(i);
        if ch == c {
            out.append(to);
        } else {
            let piece = s.substring_char(i, i + 1);
            out.append(piece);
        }
        proof {
            let sub = s@.subrange(0, i as int + 1);
            assert(sub.drop_last() =~= s@.subrange(0, i as int));
            assert(sub.last() == s@[i as int]);
            if ch != c {
                assert(s@.subrange(i as int, i as int + 1) =~= seq![s@[i as int]]);
            }
        }
        i = i + 1;
    }
    proof {
        assert(s@.subrange(0, n as int) =~= s@);
    }
    out
}

/// True when `p` is a prefix of `s`.
pub open spec fn starts_with_spec(s: Seq<char>, p: Seq<char>) -> bool {
    p.len() <= s.len() && s.subrange(0, p.len() as int) == p
}

/// Executable prefix test matching `starts_with_spec`.
pub fn starts_with_str(s: &str, p: &str) -> (r: bool)
    ensures
        r == starts_with_spec(s@, p@),
{
    let n = s.unicode_len();
    let m = p.unicode_len();
    if m > n {
        proof {
            assert(!starts_with_spec(s@, p@));
        }
        return false;
    }
    let mut i: usize = 0;
    while i < m
        invariant
            0 <= i <= m <= n,
            n == s@.len(),
            m == p@.len(),
            forall|k: int| 0 <= k < i ==> s@[k] == p@[k],
        decreases m - i,
    {
        if s.get_char(i) != p.get_char(i) {
            proof {
                assert(s@.subrange(0, m as int)[i as int] != p@[i as int]);
            }
            return false;
        }
        i = i + 1;
    }
    proof {
        assert(s@.subrange(0, m as int) =~= p@);
    }
    true
}

/// Executable equality of the character sequences of two strings.
pub fn str_eq(s: &str, p: &str) -> (r: bool)
    ensures
        r == (s@ == p@),
{
    let n = s.unicode_len();
    let m = p.unicode_len();
    if m != n {
        return false;
    }
    let mut i: usize = 0;
    while i < m
        invariant
            0 <= i <= m,
            n == s@.len(),
            m == p@.len(),
            n == m,
            forall|k: int| 0 <= k < i ==> s@[k] == p@[k],
        decreases m - i,
    {
        if s.get_char(i) != p.get_char(i) {
            return false;
        }
        i = i + 1;
    }
    proof {
        assert(s@ =~= p@);
    }
    true
}

/// Executable membership test: does `s` contain `c`?
pub fn contains_char(s: &str, c: char) -> (r: bool)
    ensures
        r == s@.contains(c),
{
    let n = s.unicode_len();
    let mut i: usize = 0;
    while i < n
        invariant
            0 <= i <= n,
            n == s@.len(),
            forall|k: int| 0 <= k < i ==> s@[k] != c,
        decreases n - i,
    {
        if s.get_char(i) == c {
            return true;
        }
        i = i + 1;
    }
    proof {
        assert(forall|k: int| 0 <= k < s@.len() ==> s@[k] != c);
    }
    false
}

/// The pieces of `s` between occurrences of the separator `c`: splitting
/// an empty sequence yields one empty piece, and every separator starts
/// a new piece.
pub open spec fn split_spec(s: Seq<char>, c: char) -> Seq<Seq<char>>
    decreases s.len(),
    via split_spec_decreases
{
    match find_from(s, c, 0) {
        None => seq![s],
        Some(i) => seq![s.subrange(0, i)] + split_spec(s.subrange(i + 1, s.len() as int), c),
    }
}

#[via_fn]
proof fn split_spec_decreases(s: Seq<char>, c: char) {
    lemma_find_from_properties(s, c, 0);
}

/// The character sequences of a sequence of strings.
pub open spec fn seq_views(v: Seq<String>) -> Seq<Seq<char>> {
    Seq::new(v.len(), |i: int| v[i]@)
}

/// Split `s` at every occurrence of `c`, matching `split_spec`.
pub fn split_on(s: &str, c: char) -> (r: Vec<String>)
    ensures
        seq_views(r@) == split_spec(s@, c),
{
    let n = s.unicode_len();
    let mut out: Vec<String> = Vec::new();
    let mut start: usize = 0;
    proof {
        assert(s@.subrange(0, n as int) =~= s@);
        assert(seq_views(out@) + split_spec(s@, c) =~= split_spec(s@, c));
    }
    loop
        invariant_except_break
            0 <= start <= n,
            n == s@.len(),
            split_spec(s@, c) =~= seq_views(out@) + split_spec(
                s@.subrange(start as int, n as int),
                c,
            ),
        ensures
            seq_views(out@) =~= split_spec(s@, c),
        decreases n - start,
    {
        let ghost old_out = out@;
        let found = find_char(s, c, start);
        match found {
            None => {
                let piece = s.substring_char(start, n);
                out.push(String::from_str(piece));
                proof {
                    let tail = s@.subrange(start as int, n as int);
                    lemma_find_from_shift(s@, c, start as int, 0);
                    assert(find_from(tail, c, 0) is None);
                    assert(split_spec(tail, c) == seq![tail]);
                    assert(seq_views(out@) =~= seq_views(old_out).push(tail));
                    assert(seq_views(old_out) + seq![tail] =~= seq_views(old_out).push(tail));
                    assert(seq_views(out@) =~= split_spec(s@, c));
                }
                break;
            },
            Some(j) => {
                proof {
                    lemma_find_from_properties(s@, c, start as int);
                }
                let piece = s.substring_char(start, j);
                out.push(String::from_str(piece));
                proof {
                    let tail = s@.subrange(start as int, n as int);
                    lemma_find_from_shift(s@, c, start as int, 0);
                    assert(find_from(tail, c, 0) == Some(j - start as int));
                    let head = tail.subrange(0, j - start as int);
                    let rest = tail.subrange(j - start as int + 1, tail.len() as int);
                    assert(split_spec(tail, c) == seq![head] + split_spec(rest, c));
                    assert(head =~= s@.subrange(start as int, j as int));
                    assert(rest =~= s@.subrange(j as int + 1, n as int));
                    assert(seq_views(out@) =~= seq_views(old_out).push(head));
                    assert(seq_views(out@) + split_spec(rest, c) =~= seq_views(old_out) + (
                    seq![head] + split_spec(rest, c)));
                }
                start = j + 1;
            },
        }
    }
    out
}

/// Searching a suffix of `s` from its start agrees with searching `s`
/// from the suffix's offset.
pub proof fn lemma_find_from_shift(s: Seq<char>, c: char, base: int, off: int)
    requires
        0 <= base <= s.len(),
        0 <= off <= s.len() - base,
    ensures
        ({
            let tail = s.subrange(base, s.len() as int);
            match find_from(s, c, base + off) {
                None => find_from(tail, c, off) is None,
                Some(j) => find_from(tail, c, off) == Some(j - base),
            }
        }),
    decreases s.len() - base - off,
{
    let tail = s.subrange(base, s.len() as int);
    if base + off < s.len() {
        assert(tail[off] == s[base + off]);
        if s[base + off] != c {
            lemma_find_from_shift(s, c, base, off + 1);
        }
    }
}

} // verus!
