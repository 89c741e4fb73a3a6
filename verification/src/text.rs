use vstd::prelude::*;

verus! {

/// The Unicode white-space characters, the set that trimming strips
/// from both ends of the user's input.
pub open spec fn is_space(c: char) -> bool {
    ||| c == ' '
    ||| c == '\t'
    ||| c == '\n'
    ||| c == '\r'
    ||| c == '\u{000B}'
    ||| c == '\u{000C}'
    ||| c == '\u{0085}'
    ||| c == '\u{00A0}'
    ||| c == '\u{1680}'
    ||| ('\u{2000}' <= c && c <= '\u{200A}')
    ||| c == '\u{2028}'
    ||| c == '\u{2029}'
    ||| c == '\u{202F}'
    ||| c == '\u{205F}'
    ||| c == '\u{3000}'
}

/// What is left of `s` after dropping every leading white-space character.
pub open spec fn trim_left(s: Seq<char>) -> Seq<char>
    decreases s.len(),
{
    if s.len() > 0 && is_space(s[0]) {
        trim_left(s.drop_first())
    } else {
        s
    }
}

/// What is left of `s` after dropping every trailing white-space character.
pub open spec fn trim_right(s: Seq<char>) -> Seq<char>
    decreases s.len(),
{
    if s.len() > 0 && is_space(s.last()) {
        trim_right(s.drop_last())
    } else {
        s
    }
}

/// `s` without leading and trailing white space.
pub open spec fn trim_spec(s: Seq<char>) -> Seq<char> {
    trim_right(trim_left(s))
}

pub fn is_space_char(c: char) -> (r: bool)
    ensures
        r == is_space(c),
{
    c == ' ' || c == '\t' || c == '\n' || c == '\r'
        || c == '\u{000B}' || c == '\u{000C}' || c == '\u{0085}'
        || c == '\u{00A0}' || c == '\u{1680}'
        || ('\u{2000}' <= c && c <= '\u{200A}')
        || c == '\u{2028}' || c == '\u{2029}' || c == '\u{202F}'
        || c == '\u{205F}' || c == '\u{3000}'
}

proof fn lemma_trim_left_at(s: Seq<char>, lo: int)
    requires
        0 <= lo <= s.len(),
        forall|k: int| 0 <= k < lo ==> is_space(s[k]),
        lo == s.len() || !is_space(s[lo]),
    ensures
        trim_left(s) == s.subrange(lo, s.len() as int),
    decreases lo,
{
    if lo == 0 {
        assert(s.subrange(0, s.len() as int) =~= s);
    } else {
        lemma_trim_left_at(s.drop_first(), lo - 1);
        assert(s.drop_first().subrange(lo - 1, s.drop_first().len() as int)
            =~= s.subrange(lo, s.len() as int));
    }
}

proof fn lemma_trim_right_at(s: Seq<char>, hi: int)
    requires
        0 <= hi <= s.len(),
        forall|k: int| hi <= k < s.len() ==> is_space(s[k]),
        hi == 0 || !is_space(s[hi - 1]),
    ensures
        trim_right(s) == s.subrange(0, hi),
    decreases s.len() - hi,
{
    if hi == s.len() {
        if s.len() > 0 && is_space(s.last()) {
            assert(!is_space(s[hi - 1]));
            assert(false);
        }
        assert(s.subrange(0, hi) =~= s);
    } else {
        assert(is_space(s.last()));
        lemma_trim_right_at(s.drop_last(), hi);
        assert(s.drop_last().subrange(0, hi) =~= s.subrange(0, hi));
    }
}

/// Strips leading and trailing white space from `s`, as the session does
/// with the raw domain the user typed.
pub fn trim(s: &str) -> (r: &str)
    ensures
        r@ == trim_spec(s@),
{
    let n = s.unicode_len();
    let mut lo: usize = 0;
    while lo < n && is_space_char(s.get_char(lo))
        invariant
            lo <= n,
            forall|k: int| 0 <= k < lo ==> is_space(s@[k]),
        decreases n - lo,
    {
        lo = lo + 1;
    }
    let mut hi: usize = n;
    while hi > lo && is_space_char(s.get_char(hi - 1))
        invariant
            lo <= hi <= n,
            forall|k: int| hi <= k < n ==> is_space(s@[k]),
        decreases hi,
    {
        hi = hi - 1;
    }
    let r = s.substring_char(lo, hi);
    proof {
        lemma_trim_left_at(s@, lo as int);
        let t = s@.subrange(lo as int, s@.len() as int);
        lemma_trim_right_at(t, hi - lo);
        assert(t.subrange(0, hi - lo) =~= s@.subrange(lo as int, hi as int));
    }
    r
}

/// The index of the first occurrence of `c` in `s`, or `s.len()` if there
/// is none.
pub open spec fn find_char(s: Seq<char>, c: char) -> int
    decreases s.len(),
{
    if s.len() == 0 {
        0
    } else if s[0] == c {
        0
    } else {
        1 + find_char(s.drop_first(), c)
    }
}

pub proof fn lemma_find_char(s: Seq<char>, c: char)
    ensures
        0 <= find_char(s, c) <= s.len(),
        find_char(s, c) < s.len() ==> s[find_char(s, c)] == c,
        forall|k: int| 0 <= k < find_char(s, c) ==> s[k] != c,
    decreases s.len(),
{
    if s.len() == 0 {
    } else if s[0] == c {
    } else {
        lemma_find_char(s.drop_first(), c);
        assert forall|k: int| 0 <= k < find_char(s, c) implies s[k] != c by {
            if k > 0 {
                assert(s.drop_first()[k - 1] != c);
            }
        }
    }
}

/// If `c` first occurs at `i`, then `find_char` says so.
pub proof fn lemma_find_char_at(s: Seq<char>, c: char, i: int)
    requires
        0 <= i < s.len(),
        s[i] == c,
        forall|k: int| 0 <= k < i ==> s[k] != c,
    ensures
        find_char(s, c) == i,
{
    lemma_find_char(s, c);
    let f = find_char(s, c);
    if f < i {
        assert(s[f] == c);
        assert(s[f] != c);
    }
    if f > i {
        assert(s[i] != c);
    }
}

/// If `c` does not occur in `s`, then `find_char` runs off the end.
pub proof fn lemma_find_char_none(s: Seq<char>, c: char)
    requires
        forall|k: int| 0 <= k < s.len() ==> s[k] != c,
    ensures
        find_char(s, c) == s.len(),
{
    lemma_find_char(s, c);
    let f = find_char(s, c);
    if f < s.len() {
        assert(s[f] == c);
        assert(s[f] != c);
    }
}

/// The lines of `s`, split on every newline character. A trailing newline
/// yields a final empty line, so that joining the lines back with newlines
/// restores `s` exactly.
pub open spec fn lines_of(s: Seq<char>) -> Seq<Seq<char>>
    decreases s.len(),
{
    let i = find_char(s, '\n');
    if !(0 <= i < s.len()) {
        seq![s]
    } else {
        seq![s.subrange(0, i)] + lines_of(s.subrange(i + 1, s.len() as int))
    }
}

/// The lines joined back into one text, with a newline between each
/// adjacent pair.
pub open spec fn join_lines(lines: Seq<Seq<char>>) -> Seq<char>
    decreases lines.len(),
{
    if lines.len() == 0 {
        Seq::empty()
    } else if lines.len() == 1 {
        lines[0]
    } else {
        lines[0] + seq!['\n'] + join_lines(lines.drop_first())
    }
}

pub proof fn lemma_lines_of_nonempty(s: Seq<char>)
    ensures
        lines_of(s).len() >= 1,
{
}

/// No line produced by `lines_of` contains a newline itself.
pub proof fn lemma_lines_no_newline(s: Seq<char>)
    ensures
        forall|j: int| 0 <= j < lines_of(s).len() ==> !(#[trigger] lines_of(s)[j]).contains('\n'),
    decreases s.len(),
{
    lemma_find_char(s, '\n');
    let i = find_char(s, '\n');
    if !(0 <= i < s.len()) {
        assert forall|j: int| 0 <= j < lines_of(s).len() implies !(#[trigger] lines_of(s)[j]).contains('\n') by {
            assert(lines_of(s)[j] == s);
            if s.contains('\n') {
                let k = choose|k: int| 0 <= k < s.len() && s[k] == '\n';
                assert(s[k] != '\n');
            }
        }
    } else {
        let rest = s.subrange(i + 1, s.len() as int);
        lemma_lines_no_newline(rest);
        let first = s.subrange(0, i);
        assert forall|j: int| 0 <= j < lines_of(s).len() implies !(#[trigger] lines_of(s)[j]).contains('\n') by {
            if j == 0 {
                assert(lines_of(s)[j] == first);
                if first.contains('\n') {
                    let k = choose|k: int| 0 <= k < first.len() && first[k] == '\n';
                    assert(s[k] != '\n');
                }
            } else {
                assert(lines_of(s)[j] == lines_of(rest)[j - 1]);
            }
        }
    }
}

/// Joining the lines of `s` with newlines gives back `s` exactly.
pub proof fn lemma_join_lines_of(s: Seq<char>)
    ensures
        join_lines(lines_of(s)) == s,
    decreases s.len(),
{
    lemma_find_char(s, '\n');
    let i = find_char(s, '\n');
    if !(0 <= i < s.len()) {
    } else {
        let rest = s.subrange(i + 1, s.len() as int);
        lemma_join_lines_of(rest);
        lemma_lines_of_nonempty(rest);
        let ls = lines_of(s);
        assert(ls.drop_first() =~= lines_of(rest));
        assert(ls[0] + seq!['\n'] + rest =~= s);
    }
}

/// Splitting a newline-joined sequence of newline-free lines gives the
/// lines back.
pub proof fn lemma_lines_of_join(lines: Seq<Seq<char>>)
    requires
        lines.len() >= 1,
        forall|j: int| 0 <= j < lines.len() ==> !(#[trigger] lines[j]).contains('\n'),
    ensures
        lines_of(join_lines(lines)) == lines,
    decreases lines.len(),
{
    let jn = join_lines(lines);
    let first = lines[0];
    assert forall|k: int| 0 <= k < first.len() implies first[k] != '\n' by {
        if first[k] == '\n' {
            assert(first.contains('\n'));
        }
    }
    if lines.len() == 1 {
        lemma_find_char_none(first, '\n');
        assert(lines_of(jn) =~= lines);
    } else {
        let rest = lines.drop_first();
        lemma_lines_of_join(rest);
        assert(jn == first + seq!['\n'] + join_lines(rest));
        assert(jn[first.len() as int] == '\n');
        lemma_find_char_at(jn, '\n', first.len() as int);
        assert(jn.subrange(0, first.len() as int) =~= first);
        assert(jn.subrange(first.len() as int + 1, jn.len() as int) =~= join_lines(rest));
        assert(lines_of(jn) =~= lines);
    }
}

/// Splitting a text that ends in a newline, followed by more text, yields
/// the lines of the first part (without its final empty line) and then the
/// lines of the second.
pub proof fn lemma_lines_of_concat(a: Seq<char>, b: Seq<char>)
    requires
        a.len() == 0 || a.last() == '\n',
    ensures
        a.len() == 0 ==> lines_of(a + b) == lines_of(b),
        a.len() > 0 ==> lines_of(a + b) == lines_of(a).drop_last() + lines_of(b),
    decreases a.len(),
{
    if a.len() == 0 {
        assert(a + b =~= b);
    } else {
        lemma_find_char(a, '\n');
        let i = find_char(a, '\n');
        if i == a.len() {
            assert(a[a.len() - 1] != '\n');
            assert(false);
        }
        let ab = a + b;
        assert(ab[i] == a[i]);
        assert forall|k: int| 0 <= k < i implies ab[k] != '\n' by {
            assert(ab[k] == a[k]);
        }
        lemma_find_char_at(ab, '\n', i);
        let a2 = a.subrange(i + 1, a.len() as int);
        assert(ab.subrange(0, i) =~= a.subrange(0, i));
        assert(ab.subrange(i + 1, ab.len() as int) =~= a2 + b);
        if a2.len() > 0 {
            assert(a2.last() == a.last());
        }
        lemma_lines_of_concat(a2, b);
        lemma_lines_of_nonempty(a2);
        lemma_lines_of_nonempty(b);
        if a2.len() == 0 {
            assert(lines_of(a2) =~= seq![a2]);
            assert(lines_of(a) == seq![a.subrange(0, i)] + lines_of(a2));
            assert(lines_of(a).drop_last() =~= seq![a.subrange(0, i)]);
            assert(lines_of(ab) =~= lines_of(a).drop_last() + lines_of(b));
        } else {
            assert(lines_of(a) == seq![a.subrange(0, i)] + lines_of(a2));
            assert(lines_of(a).drop_last() =~= seq![a.subrange(0, i)] + lines_of(a2).drop_last());
            assert(lines_of(ab) == seq![a.subrange(0, i)] + (lines_of(a2).drop_last() + lines_of(b)));
            assert(lines_of(ab) =~= lines_of(a).drop_last() + lines_of(b));
        }
    }
}

/// Appending one more line to a non-empty line list extends the joined
/// text by a newline and that line.
pub proof fn lemma_join_push(lines: Seq<Seq<char>>, x: Seq<char>)
    requires
        lines.len() >= 1,
    ensures
        join_lines(lines.push(x)) == join_lines(lines) + seq!['\n'] + x,
    decreases lines.len(),
{
    if lines.len() == 1 {
        assert(lines.push(x).drop_first() =~= seq![x]);
        assert(join_lines(seq![x]) == x);
        assert(join_lines(lines.push(x)) == lines[0] + seq!['\n'] + x);
    } else {
        lemma_join_push(lines.drop_first(), x);
        assert(lines.push(x).drop_first() =~= lines.drop_first().push(x));
        assert(lines[0] + seq!['\n'] + (join_lines(lines.drop_first()) + seq!['\n'] + x) =~= (
        lines[0] + seq!['\n'] + join_lines(lines.drop_first())) + seq!['\n'] + x);
    }
}

/// `pat` occurs in `line` starting at position `i`.
pub open spec fn contains_at(line: Seq<char>, pat: Seq<char>, i: int) -> bool {
    0 <= i && i + pat.len() <= line.len() && line.subrange(i, i + pat.len()) == pat
}

/// `pat` occurs somewhere in `line` as a contiguous run of characters.
pub open spec fn contains_sub(line: Seq<char>, pat: Seq<char>) -> bool {
    exists|i: int| contains_at(line, pat, i)
}

} // verus!
