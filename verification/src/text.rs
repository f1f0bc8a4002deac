//! Text as sequences of characters: trimming, searching, splitting and reading
//! numbers, with the meaning that the standard library gives these operations on
//! strings.
use vstd::prelude::*;

verus! {

/// `String::push` appends one character at the end of the string.
pub assume_specification[ String::push ](s: &mut String, c: char)
    ensures
        final(s)@ == old(s)@.push(c),
;

/// The characters of a string, in order.
pub fn chars_of(s: &str) -> (out: Vec<char>)
    ensures
        out@ == s@,
{
    let mut out: Vec<char> = Vec::new();
    for c in it: s.chars()
        invariant
            it.seq() == s@,
            out@ == it.seq().take(it.index() as int),
    {
        out.push(c);
    }
    out
}

/// The string made of the given characters.
pub fn string_of(cs: &[char]) -> (out: String)
    ensures
        out@ == cs@,
{
    let mut out = String::new();
    let n: usize = cs.len();
    for i in 0..n
        invariant
            n == cs@.len(),
            out@ == cs@.take(i as int),
    {
        out.push(cs[i]);
        assert(cs@.take(i + 1) =~= cs@.take(i as int).push(cs@[i as int]));
    }
    assert(cs@.take(n as int) =~= cs@);
    out
}

/// A copy of the given characters.
pub fn copied(cs: &[char]) -> (out: Vec<char>)
    ensures
        out@ == cs@,
{
    let mut out: Vec<char> = Vec::new();
    let n: usize = cs.len();
    for i in 0..n
        invariant
            n == cs@.len(),
            out@ == cs@.take(i as int),
    {
        out.push(cs[i]);
        assert(cs@.take(i + 1) =~= cs@.take(i as int).push(cs@[i as int]));
    }
    assert(cs@.take(n as int) =~= cs@);
    out
}

/// Whether two pieces of text are the same.
pub fn same(a: &[char], b: &[char]) -> (equal: bool)
    ensures
        equal == (a@ == b@),
{
    let n: usize = a.len();
    if n != b.len() {
        return false;
    }
    for i in 0..n
        invariant
            n == a@.len() == b@.len(),
            a@.take(i as int) == b@.take(i as int),
    {
        if a[i] != b[i] {
            return false;
        }
        assert(a@.take(i + 1) =~= a@.take(i as int).push(a@[i as int]));
        assert(b@.take(i + 1) =~= b@.take(i as int).push(b@[i as int]));
    }
    assert(a@.take(n as int) =~= a@);
    assert(b@.take(n as int) =~= b@);
    true
}

/// Whether a piece of text is the given string.
pub fn is_text(cs: &[char], s: &str) -> (equal: bool)
    ensures
        equal == (cs@ == s@),
{
    let other = chars_of(s);
    same(cs, other.as_slice())
}

/// Whether two strings are the same.
pub fn same_str(a: &str, b: &str) -> (equal: bool)
    ensures
        equal == (a@ == b@),
{
    let other = chars_of(a);
    is_text(other.as_slice(), b)
}

// ---- Messages --------------------------------------------------------------

/// Message for a failed call: the call's name, a colon and what went wrong.
pub open spec fn failure_text(call: Seq<char>, detail: Seq<char>) -> Seq<char> {
    call + ": "@ + detail
}

/// Message for a failed call.
pub fn call_error(call: &str, detail: &str) -> (message: String)
    ensures
        message@ == failure_text(call@, detail@),
{
    call.to_owned().concat(": ").concat(detail)
}

// ---- White space -----------------------------------------------------------

/// Whether a character has the Unicode property `White_Space`.
pub open spec fn white(c: char) -> bool {
    let u = c as u32;
    ||| 0x09 <= u <= 0x0D
    ||| u == 0x20
    ||| u == 0x85
    ||| u == 0xA0
    ||| u == 0x1680
    ||| 0x2000 <= u <= 0x200A
    ||| u == 0x2028
    ||| u == 0x2029
    ||| u == 0x202F
    ||| u == 0x205F
    ||| u == 0x3000
}

/// Whether a character is white space.
pub fn is_white(c: char) -> (out: bool)
    ensures
        out == white(c),
{
    let u: u32 = c as u32;
    (0x09 <= u && u <= 0x0D) || u == 0x20 || u == 0x85 || u == 0xA0 || u == 0x1680 || (0x2000 <= u
        && u <= 0x200A) || u == 0x2028 || u == 0x2029 || u == 0x202F || u == 0x205F || u == 0x3000
}

/// Number of white characters at the start of `s`.
pub open spec fn leading_white(s: Seq<char>) -> nat
    decreases s.len(),
{
    if s.len() > 0 && white(s[0]) {
        1 + leading_white(s.drop_first())
    } else {
        0
    }
}

/// Number of characters at the start of `s` that are not white.
pub open spec fn leading_ink(s: Seq<char>) -> nat
    decreases s.len(),
{
    if s.len() > 0 && !white(s[0]) {
        1 + leading_ink(s.drop_first())
    } else {
        0
    }
}

/// Number of white characters at the end of `s`.
pub open spec fn trailing_white(s: Seq<char>) -> nat
    decreases s.len(),
{
    if s.len() > 0 && white(s.last()) {
        1 + trailing_white(s.drop_last())
    } else {
        0
    }
}

/// `s` without the white space at its start and at its end.
pub open spec fn trimmed(s: Seq<char>) -> Seq<char> {
    let t = s.skip(leading_white(s) as int);
    t.take(t.len() - trailing_white(t))
}

/// The white prefix ends at the first character that is not white.
pub proof fn lemma_leading_white(s: Seq<char>, n: int)
    requires
        0 <= n <= s.len(),
        forall|j: int| 0 <= j < n ==> white(#[trigger] s[j]),
        n < s.len() ==> !white(s[n]),
    ensures
        leading_white(s) == n,
    decreases n,
{
    if n > 0 {
        assert(white(s[0]));
        let t = s.drop_first();
        assert forall|j: int| 0 <= j < n - 1 implies white(#[trigger] t[j]) by {
            assert(t[j] == s[j + 1]);
        }
        lemma_leading_white(t, n - 1);
    }
}

/// The prefix without white space ends at the first white character.
pub proof fn lemma_leading_ink(s: Seq<char>, n: int)
    requires
        0 <= n <= s.len(),
        forall|j: int| 0 <= j < n ==> !white(#[trigger] s[j]),
        n < s.len() ==> white(s[n]),
    ensures
        leading_ink(s) == n,
    decreases n,
{
    if n > 0 {
        assert(!white(s[0]));
        let t = s.drop_first();
        assert forall|j: int| 0 <= j < n - 1 implies !white(#[trigger] t[j]) by {
            assert(t[j] == s[j + 1]);
        }
        lemma_leading_ink(t, n - 1);
    }
}

/// The white suffix starts after the last character that is not white.
pub proof fn lemma_trailing_white(s: Seq<char>, n: int)
    requires
        0 <= n <= s.len(),
        forall|j: int| s.len() - n <= j < s.len() ==> white(#[trigger] s[j]),
        n < s.len() ==> !white(s[s.len() - n - 1]),
    ensures
        trailing_white(s) == n,
    decreases n,
{
    if n > 0 {
        assert(white(s[s.len() - 1]));
        let t = s.drop_last();
        assert forall|j: int| t.len() - (n - 1) <= j < t.len() implies white(#[trigger] t[j]) by {
            assert(t[j] == s[j]);
        }
        lemma_trailing_white(t, n - 1);
    }
}

/// Text that neither starts nor ends with white space is its own trimming.
pub proof fn lemma_trimmed_is_same(s: Seq<char>)
    requires
        s.len() > 0 ==> !white(s[0]) && !white(s.last()),
    ensures
        trimmed(s) == s,
{
    lemma_leading_white(s, 0);
    assert(s.skip(0) =~= s);
    lemma_trailing_white(s, 0);
    assert(s.take(s.len() as int) =~= s);
}

/// `cs` without the white space around it.
pub fn trim(cs: &[char]) -> (out: &[char])
    ensures
        out@ == trimmed(cs@),
{
    let n: usize = cs.len();
    let mut lo: usize = 0;
    while lo < n && is_white(cs[lo])
        invariant
            n == cs@.len(),
            lo <= n,
            forall|j: int| 0 <= j < lo ==> white(#[trigger] cs@[j]),
        decreases n - lo,
    {
        lo = lo + 1;
    }
    let ghost t = cs@.skip(lo as int);
    proof {
        lemma_leading_white(cs@, lo as int);
    }
    let mut hi: usize = n;
    while hi > lo && is_white(cs[hi - 1])
        invariant
            n == cs@.len(),
            lo <= hi <= n,
            forall|j: int| hi <= j < n ==> white(#[trigger] cs@[j]),
        decreases hi,
    {
        hi = hi - 1;
    }
    proof {
        assert forall|j: int| t.len() - (n - hi) <= j < t.len() implies white(#[trigger] t[j]) by {
            assert(t[j] == cs@[j + lo]);
        }
        lemma_trailing_white(t, n - hi);
        assert(t.take(hi - lo) =~= cs@.subrange(lo as int, hi as int));
    }
    &cs[lo..hi]
}

// ---- Prefixes, suffixes and occurrences ------------------------------------

/// Whether `s` starts with `p`.
pub open spec fn has_prefix(s: Seq<char>, p: Seq<char>) -> bool {
    p.len() <= s.len() && s.take(p.len() as int) == p
}

/// Whether `s` ends with `p`.
pub open spec fn has_suffix(s: Seq<char>, p: Seq<char>) -> bool {
    p.len() <= s.len() && s.skip(s.len() - p.len()) == p
}

/// Whether `p` occurs in `s` at position `i`.
pub open spec fn occurs_at(s: Seq<char>, p: Seq<char>, i: int) -> bool {
    0 <= i && i + p.len() <= s.len() && s.subrange(i, i + p.len()) == p
}

/// Whether `p` occurs anywhere in `s`.
pub open spec fn has_part(s: Seq<char>, p: Seq<char>) -> bool {
    exists|i: int| occurs_at(s, p, i)
}

/// First position from `i` on at which `p` occurs in `s`.
pub open spec fn first_from(s: Seq<char>, p: Seq<char>, i: int) -> Option<int>
    decreases s.len() - i + 1,
{
    if i + p.len() > s.len() {
        None
    } else if occurs_at(s, p, i) {
        Some(i)
    } else {
        first_from(s, p, i + 1)
    }
}

/// First position at which `p` occurs in `s`.
pub open spec fn first_of(s: Seq<char>, p: Seq<char>) -> Option<int> {
    first_from(s, p, 0)
}

/// The first position is an occurrence with none before it; there is no first
/// position where nothing occurs.
pub proof fn lemma_first_from(s: Seq<char>, p: Seq<char>, i: int)
    requires
        0 <= i,
    ensures
        match first_from(s, p, i) {
            Some(k) => i <= k && occurs_at(s, p, k) && forall|j: int|
                i <= j < k ==> !#[trigger] occurs_at(s, p, j),
            None => forall|j: int| i <= j ==> !#[trigger] occurs_at(s, p, j),
        },
    decreases s.len() - i + 1,
{
    if i + p.len() <= s.len() && !occurs_at(s, p, i) {
        lemma_first_from(s, p, i + 1);
    }
}

/// Whether the text starts with the given prefix.
pub fn starts_with(cs: &[char], p: &[char]) -> (out: bool)
    ensures
        out == has_prefix(cs@, p@),
{
    let n: usize = p.len();
    if n > cs.len() {
        return false;
    }
    assert(cs@.take(n as int) =~= cs@.subrange(0, n as int));
    same(&cs[0..n], p)
}

/// Whether the text ends with the given suffix.
pub fn ends_with(cs: &[char], p: &[char]) -> (out: bool)
    ensures
        out == has_suffix(cs@, p@),
{
    let n: usize = p.len();
    let m: usize = cs.len();
    if n > m {
        return false;
    }
    assert(cs@.skip(m - n) =~= cs@.subrange(m - n, m as int));
    same(&cs[m - n..m], p)
}

/// First position at which `p` occurs.
pub fn find(cs: &[char], p: &[char]) -> (at: Option<usize>)
    ensures
        at is Some <==> first_of(cs@, p@) is Some,
        at is Some ==> first_of(cs@, p@) == Some(at->0 as int),
{
    let n: usize = cs.len();
    let m: usize = p.len();
    if m > n {
        return None;
    }
    let mut i: usize = 0;
    while i <= n - m
        invariant
            n == cs@.len(),
            m == p@.len(),
            m <= n,
            i <= n - m + 1,
            first_of(cs@, p@) == first_from(cs@, p@, i as int),
        decreases n - i + 1,
    {
        if same(&cs[i..i + m], p) {
            return Some(i);
        }
        if i == n - m {
            assert(first_from(cs@, p@, i + 1) is None);
            return None;
        }
        i = i + 1;
    }
    None
}

/// Whether `p` occurs anywhere.
pub fn contains(cs: &[char], p: &[char]) -> (out: bool)
    ensures
        out == has_part(cs@, p@),
{
    proof {
        lemma_first_from(cs@, p@, 0);
    }
    match find(cs, p) {
        Some(i) => {
            assert(occurs_at(cs@, p@, i as int));
            true
        },
        None => false,
    }
}

// ---- Words, lines and fields -----------------------------------------------

/// The contents of a list of pieces of text.
pub open spec fn views(list: Seq<Vec<char>>) -> Seq<Seq<char>> {
    list.map_values(|v: Vec<char>| v@)
}

/// The words of a text: its longest runs without white space.
pub open spec fn words_of(s: Seq<char>) -> Seq<Seq<char>>
    decreases s.len(),
{
    let t = s.skip(leading_white(s) as int);
    if leading_white(s) >= s.len() {
        Seq::empty()
    } else {
        let n = leading_ink(t) as int;
        if n <= 0 || n > t.len() {
            Seq::empty()
        } else {
            seq![t.take(n)] + words_of(t.skip(n))
        }
    }
}

/// Splits a text at white space.
pub fn words(cs: &[char]) -> (out: Vec<Vec<char>>)
    ensures
        views(out@) == words_of(cs@),
{
    let n: usize = cs.len();
    let mut out: Vec<Vec<char>> = Vec::new();
    let mut i: usize = 0;
    assert(cs@.skip(0) =~= cs@);
    assert(views(out@) =~= Seq::empty());
    loop
        invariant
            n == cs@.len(),
            i <= n,
            words_of(cs@) == views(out@) + words_of(cs@.skip(i as int)),
        ensures
            views(out@) == words_of(cs@),
        decreases n - i,
    {
        let ghost s = cs@.skip(i as int);
        let mut lo: usize = i;
        while lo < n && is_white(cs[lo])
            invariant
                n == cs@.len(),
                i <= lo <= n,
                s == cs@.skip(i as int),
                forall|j: int| 0 <= j < lo - i ==> white(#[trigger] s[j]),
            decreases n - lo,
        {
            assert(s[lo - i] == cs@[lo as int]);
            lo = lo + 1;
        }
        proof {
            if lo < n {
                assert(s[lo - i] == cs@[lo as int]);
            }
            lemma_leading_white(s, lo - i);
        }
        if lo == n {
            assert(words_of(s) =~= Seq::<Seq<char>>::empty());
            assert(views(out@) + words_of(s) =~= views(out@));
            break;
        }
        let ghost t = s.skip(lo - i);
        assert(t =~= cs@.skip(lo as int));
        let mut hi: usize = lo;
        while hi < n && !is_white(cs[hi])
            invariant
                n == cs@.len(),
                lo <= hi <= n,
                t == cs@.skip(lo as int),
                forall|j: int| 0 <= j < hi - lo ==> !white(#[trigger] t[j]),
            decreases n - hi,
        {
            assert(t[hi - lo] == cs@[hi as int]);
            hi = hi + 1;
        }
        proof {
            if hi < n {
                assert(t[hi - lo] == cs@[hi as int]);
            }
            lemma_leading_ink(t, hi - lo);
            assert(hi > lo) by {
                assert(t[0] == cs@[lo as int]);
            }
            assert(t.take(hi - lo) =~= cs@.subrange(lo as int, hi as int));
            assert(t.skip(hi - lo) =~= cs@.skip(hi as int));
        }
        let word = copied(&cs[lo..hi]);
        let ghost before = out@;
        out.push(word);
        proof {
            assert(views(out@) =~= views(before).push(word@));
            assert(views(before) + (seq![word@] + words_of(cs@.skip(hi as int))) =~= views(
                before,
            ).push(word@) + words_of(cs@.skip(hi as int)));
        }
        i = hi;
    }
    out
}

/// Number of characters before the first `sep`.
pub open spec fn before_sep(s: Seq<char>, sep: char) -> nat
    decreases s.len(),
{
    if s.len() > 0 && s[0] != sep {
        1 + before_sep(s.drop_first(), sep)
    } else {
        0
    }
}

/// The first separator ends what is before it.
pub proof fn lemma_before_sep(s: Seq<char>, sep: char, n: int)
    requires
        0 <= n <= s.len(),
        forall|j: int| 0 <= j < n ==> #[trigger] s[j] != sep,
        n < s.len() ==> s[n] == sep,
    ensures
        before_sep(s, sep) == n,
    decreases n,
{
    if n > 0 {
        assert(s[0] != sep);
        let t = s.drop_first();
        assert forall|j: int| 0 <= j < n - 1 implies #[trigger] t[j] != sep by {
            assert(t[j] == s[j + 1]);
        }
        lemma_before_sep(t, sep, n - 1);
    }
}

/// The fields that `sep` separates. Text without a separator is one field.
pub open spec fn fields_of(s: Seq<char>, sep: char) -> Seq<Seq<char>>
    decreases s.len(),
{
    let n = before_sep(s, sep) as int;
    if n >= s.len() {
        seq![s]
    } else {
        seq![s.take(n)] + fields_of(s.skip(n + 1), sep)
    }
}

/// Splits a text at each `sep`.
pub fn fields(cs: &[char], sep: char) -> (out: Vec<Vec<char>>)
    ensures
        views(out@) == fields_of(cs@, sep),
{
    let n: usize = cs.len();
    let mut out: Vec<Vec<char>> = Vec::new();
    let mut i: usize = 0;
    assert(cs@.skip(0) =~= cs@);
    assert(views(out@) =~= Seq::empty());
    assert(Seq::<Seq<char>>::empty() + fields_of(cs@, sep) =~= fields_of(cs@, sep));
    loop
        invariant_except_break
            fields_of(cs@, sep) == views(out@) + fields_of(cs@.skip(i as int), sep),
        invariant
            n == cs@.len(),
            i <= n,
        ensures
            views(out@) == fields_of(cs@, sep),
        decreases n - i,
    {
        let ghost s = cs@.skip(i as int);
        let mut hi: usize = i;
        while hi < n && cs[hi] != sep
            invariant
                n == cs@.len(),
                i <= hi <= n,
                s == cs@.skip(i as int),
                forall|j: int| 0 <= j < hi - i ==> #[trigger] s[j] != sep,
            decreases n - hi,
        {
            assert(s[hi - i] == cs@[hi as int]);
            hi = hi + 1;
        }
        proof {
            if hi < n {
                assert(s[hi - i] == cs@[hi as int]);
            }
            lemma_before_sep(s, sep, hi - i);
            assert(s.take(hi - i) =~= cs@.subrange(i as int, hi as int));
        }
        let field = copied(&cs[i..hi]);
        let ghost before = out@;
        out.push(field);
        assert(views(out@) =~= views(before).push(field@));
        if hi == n {
            assert(s =~= field@);
            assert(views(before) + seq![s] =~= views(before).push(field@));
            break;
        }
        proof {
            assert(s.skip(hi - i + 1) =~= cs@.skip(hi + 1));
            assert(views(before) + (seq![field@] + fields_of(cs@.skip(hi + 1), sep)) =~= views(
                before,
            ).push(field@) + fields_of(cs@.skip(hi + 1), sep));
        }
        i = hi + 1;
    }
    out
}

/// A line without the carriage return that its line feed completes.
pub open spec fn without_cr(s: Seq<char>) -> Seq<char> {
    if s.len() > 0 && s.last() == '\r' {
        s.drop_last()
    } else {
        s
    }
}

/// The lines of a text. A line ends with a line feed, or with a carriage return and a
/// line feed; the last line may lack its ending.
pub open spec fn lines_of(s: Seq<char>) -> Seq<Seq<char>>
    decreases s.len(),
{
    let n = before_sep(s, '\n') as int;
    if s.len() == 0 {
        Seq::empty()
    } else if n >= s.len() {
        seq![s]
    } else {
        seq![without_cr(s.take(n))] + lines_of(s.skip(n + 1))
    }
}

/// Splits a text into its lines.
pub fn lines(cs: &[char]) -> (out: Vec<Vec<char>>)
    ensures
        views(out@) == lines_of(cs@),
{
    let n: usize = cs.len();
    let mut out: Vec<Vec<char>> = Vec::new();
    let mut i: usize = 0;
    assert(cs@.skip(0) =~= cs@);
    assert(views(out@) =~= Seq::empty());
    assert(Seq::<Seq<char>>::empty() + lines_of(cs@) =~= lines_of(cs@));
    while i < n
        invariant
            n == cs@.len(),
            i <= n,
            lines_of(cs@) == views(out@) + lines_of(cs@.skip(i as int)),
        decreases n - i,
    {
        let ghost s = cs@.skip(i as int);
        let mut hi: usize = i;
        while hi < n && cs[hi] != '\n'
            invariant
                n == cs@.len(),
                i <= hi <= n,
                s == cs@.skip(i as int),
                forall|j: int| 0 <= j < hi - i ==> #[trigger] s[j] != '\n',
            decreases n - hi,
        {
            assert(s[hi - i] == cs@[hi as int]);
            hi = hi + 1;
        }
        proof {
            if hi < n {
                assert(s[hi - i] == cs@[hi as int]);
            }
            lemma_before_sep(s, '\n', hi - i);
            assert(s.take(hi - i) =~= cs@.subrange(i as int, hi as int));
        }
        let ghost before = out@;
        if hi == n {
            let line = copied(&cs[i..hi]);
            out.push(line);
            proof {
                assert(s =~= line@);
                assert(views(out@) =~= views(before).push(line@));
                assert(cs@.skip(n as int) =~= Seq::<char>::empty());
                assert(lines_of(cs@.skip(n as int)) =~= Seq::<Seq<char>>::empty());
                assert(views(before) + seq![s] =~= views(out@) + lines_of(cs@.skip(n as int)));
            }
            i = n;
        } else {
            let end: usize = if hi > i && cs[hi - 1] == '\r' {
                hi - 1
            } else {
                hi
            };
            let line = copied(&cs[i..end]);
            out.push(line);
            proof {
                assert(line@ =~= without_cr(s.take(hi - i)));
                assert(views(out@) =~= views(before).push(line@));
                assert(s.skip(hi - i + 1) =~= cs@.skip(hi + 1));
                assert(views(before) + (seq![line@] + lines_of(cs@.skip(hi + 1))) =~= views(
                    before,
                ).push(line@) + lines_of(cs@.skip(hi + 1)));
            }
            i = hi + 1;
        }
    }
    proof {
        assert(cs@.skip(n as int) =~= Seq::<char>::empty());
        assert(views(out@) + Seq::<Seq<char>>::empty() =~= views(out@));
    }
    out
}

/// `s` with every occurrence of `from` replaced by `to`, from left to right, where
/// occurrences do not overlap.
pub open spec fn replaced(s: Seq<char>, from: Seq<char>, to: Seq<char>) -> Seq<char>
    decreases s.len(),
{
    if from.len() == 0 || s.len() == 0 {
        s
    } else if has_prefix(s, from) {
        to + replaced(s.skip(from.len() as int), from, to)
    } else {
        seq![s[0]] + replaced(s.drop_first(), from, to)
    }
}

/// Replaces every occurrence of `from` by `to`.
pub fn replace(cs: &[char], from: &[char], to: &[char]) -> (out: Vec<char>)
    requires
        from@.len() > 0,
    ensures
        out@ == replaced(cs@, from@, to@),
{
    let n: usize = cs.len();
    let m: usize = from.len();
    let mut out: Vec<char> = Vec::new();
    let mut i: usize = 0;
    assert(cs@.skip(0) =~= cs@);
    assert(Seq::<char>::empty() + replaced(cs@, from@, to@) =~= replaced(cs@, from@, to@));
    while i < n
        invariant
            n == cs@.len(),
            m == from@.len() > 0,
            i <= n,
            replaced(cs@, from@, to@) == out@ + replaced(cs@.skip(i as int), from@, to@),
        decreases n - i,
    {
        let ghost s = cs@.skip(i as int);
        let ghost before = out@;
        assert(s =~= cs@.subrange(i as int, n as int));
        if starts_with(&cs[i..n], from) {
            let mut part = copied(to);
            out.append(&mut part);
            proof {
                assert(s.skip(m as int) =~= cs@.skip(i + m));
                assert(before + (to@ + replaced(cs@.skip(i + m), from@, to@)) =~= out@ + replaced(
                    cs@.skip(i + m),
                    from@,
                    to@,
                ));
            }
            i = i + m;
        } else {
            out.push(cs[i]);
            proof {
                assert(s.drop_first() =~= cs@.skip(i + 1));
                assert(s[0] == cs@[i as int]);
                assert(before + (seq![s[0]] + replaced(cs@.skip(i + 1), from@, to@)) =~= out@
                    + replaced(cs@.skip(i + 1), from@, to@));
            }
            i = i + 1;
        }
    }
    proof {
        assert(cs@.skip(n as int) =~= Seq::<char>::empty());
        assert(out@ + Seq::<char>::empty() =~= out@);
    }
    out
}

// ---- Numbers ---------------------------------------------------------------

/// Whether a character is one of the digits 0 to 9.
pub open spec fn digit(c: char) -> bool {
    '0' <= c <= '9'
}

/// Value of a decimal digit.
pub open spec fn digit_value(c: char) -> int {
    c as int - '0' as int
}

/// Whether a text is made of decimal digits alone.
pub open spec fn all_digits(s: Seq<char>) -> bool {
    forall|i: int| 0 <= i < s.len() ==> digit(#[trigger] s[i])
}

/// Number that a row of decimal digits stands for.
pub open spec fn decimal_value(s: Seq<char>) -> int
    decreases s.len(),
{
    if s.len() == 0 {
        0
    } else {
        decimal_value(s.drop_last()) * 10 + digit_value(s.last())
    }
}

/// The unsigned number that a text stands for, if it is one that is not above `max`:
/// an optional plus sign and one or more decimal digits.
pub open spec fn number_in(s: Seq<char>, max: int) -> Option<int> {
    let ds = if s.len() > 0 && s[0] == '+' {
        s.drop_first()
    } else {
        s
    };
    if ds.len() > 0 && all_digits(ds) && decimal_value(ds) <= max {
        Some(decimal_value(ds))
    } else {
        None
    }
}

/// Whether a character is a decimal digit.
pub fn is_digit(c: char) -> (out: bool)
    ensures
        out == digit(c),
{
    '0' <= c && c <= '9'
}

/// A row of digits stands for a number that no longer row with the same start falls
/// below.
pub proof fn lemma_decimal_grows(s: Seq<char>, n: int)
    requires
        0 <= n <= s.len(),
        all_digits(s),
    ensures
        0 <= decimal_value(s.take(n)) <= decimal_value(s),
    decreases s.len(),
{
    if s.len() == 0 {
        assert(s.take(n) =~= s);
    } else {
        let t = s.drop_last();
        assert(all_digits(t)) by {
            assert forall|i: int| 0 <= i < t.len() implies digit(#[trigger] t[i]) by {
                assert(t[i] == s[i]);
            }
        }
        assert(digit(s[s.len() - 1]));
        if n < s.len() {
            lemma_decimal_grows(t, n);
            assert(t.take(n) =~= s.take(n));
        } else {
            lemma_decimal_grows(t, n - 1);
            assert(t.take(n - 1) =~= t);
            assert(s.take(n) =~= s);
        }
    }
}

/// Reads an unsigned decimal number not above `max`.
pub fn parse_number(cs: &[char], max: u64) -> (out: Option<u64>)
    ensures
        match out {
            Some(v) => number_in(cs@, max as int) == Some(v as int),
            None => number_in(cs@, max as int) is None,
        },
{
    let n: usize = cs.len();
    let start: usize = if n > 0 && cs[0] == '+' {
        1
    } else {
        0
    };
    let ghost ds = if cs@.len() > 0 && cs@[0] == '+' {
        cs@.drop_first()
    } else {
        cs@
    };
    assert(ds =~= cs@.skip(start as int));
    if start == n {
        return None;
    }
    let mut value: u64 = 0;
    let mut i: usize = start;
    while i < n
        invariant
            n == cs@.len(),
            start <= i <= n,
            start < n,
            start <= 1,
            ds == cs@.skip(start as int),
            number_in(cs@, max as int) == if all_digits(ds) && decimal_value(ds) <= max {
                Some(decimal_value(ds))
            } else {
                None
            },
            forall|j: int| 0 <= j < i - start ==> digit(#[trigger] ds[j]),
            value == decimal_value(ds.take(i - start)),
            value <= max,
        decreases n - i,
    {
        let c = cs[i];
        assert(ds[i - start] == c);
        if !is_digit(c) {
            return None;
        }
        let d: u64 = (c as u32 - '0' as u32) as u64;
        proof {
            assert(ds.take(i - start + 1).drop_last() =~= ds.take(i - start));
            assert(ds.take(i - start + 1).last() == c);
            if all_digits(ds) {
                lemma_decimal_grows(ds, i - start + 1);
            }
        }
        if value > (u64::MAX - d) / 10 {
            return None;
        }
        let next: u64 = value * 10 + d;
        if next > max {
            return None;
        }
        value = next;
        i = i + 1;
    }
    assert(ds.take(n - start) =~= ds);
    Some(value)
}

/// The character of a decimal digit.
pub open spec fn digit_char(d: int) -> char {
    ('0' as int + d) as char
}

/// A number written with decimal digits, without leading zeros.
pub open spec fn decimal_text(n: nat) -> Seq<char>
    decreases n,
{
    if n < 10 {
        seq![digit_char(n as int)]
    } else {
        decimal_text(n / 10).push(digit_char((n % 10) as int))
    }
}

/// Writes a number with decimal digits.
pub fn decimal(n: u64) -> (out: Vec<char>)
    ensures
        out@ == decimal_text(n as nat),
    decreases n,
{
    let d: u8 = (n % 10) as u8;
    let c: char = (48u8 + d) as char;
    assert(c == digit_char((n % 10) as int));
    if n < 10 {
        let mut out: Vec<char> = Vec::new();
        out.push(c);
        out
    } else {
        let mut out = decimal(n / 10);
        out.push(c);
        out
    }
}

/// A written number consists of digits, and reads as the number it was written for.
pub proof fn law_decimal_reads_back(n: nat, max: int)
    requires
        n <= max,
    ensures
        all_digits(decimal_text(n)),
        decimal_text(n).len() > 0,
        decimal_value(decimal_text(n)) == n,
        number_in(decimal_text(n), max) == Some(n as int),
{
    lemma_decimal_text(n);
    assert(digit(decimal_text(n)[0]));
}

proof fn lemma_decimal_text(n: nat)
    ensures
        all_digits(decimal_text(n)),
        decimal_text(n).len() > 0,
        decimal_value(decimal_text(n)) == n,
    decreases n,
{
    reveal_with_fuel(decimal_value, 2);
    if n < 10 {
        assert(decimal_text(n).drop_last() =~= Seq::empty());
    } else {
        lemma_decimal_text(n / 10);
        assert(decimal_text(n).drop_last() =~= decimal_text(n / 10));
    }
}

/// The decimal digits of a text, in order.
pub open spec fn digits_in(s: Seq<char>) -> Seq<char>
    decreases s.len(),
{
    if s.len() == 0 {
        s
    } else if digit(s.last()) {
        digits_in(s.drop_last()).push(s.last())
    } else {
        digits_in(s.drop_last())
    }
}

/// Keeps the decimal digits of a text.
pub fn keep_digits(cs: &[char]) -> (out: Vec<char>)
    ensures
        out@ == digits_in(cs@),
{
    let n: usize = cs.len();
    let mut out: Vec<char> = Vec::new();
    for i in 0..n
        invariant
            n == cs@.len(),
            out@ == digits_in(cs@.take(i as int)),
    {
        assert(cs@.take(i + 1).drop_last() =~= cs@.take(i as int));
        if is_digit(cs[i]) {
            out.push(cs[i]);
        }
    }
    assert(cs@.take(n as int) =~= cs@);
    out
}

/// What is kept consists of digits, and text of digits alone is kept whole.
pub proof fn law_digits_are_kept(s: Seq<char>)
    ensures
        all_digits(digits_in(s)),
        all_digits(s) ==> digits_in(s) == s,
    decreases s.len(),
{
    if s.len() > 0 {
        let t = s.drop_last();
        law_digits_are_kept(t);
        if all_digits(s) {
            assert forall|i: int| 0 <= i < t.len() implies digit(#[trigger] t[i]) by {
                assert(t[i] == s[i]);
            }
            assert(digit(s[s.len() - 1]));
            assert(t.push(s.last()) =~= s);
        }
    }
}

// ---- Bytes -----------------------------------------------------------------

/// Error of `core::str::from_utf8`.
#[verifier::external_type_specification]
#[verifier::external_body]
pub struct ExUtf8Error(core::str::Utf8Error);

/// `core::str::from_utf8` accepts a byte slice exactly when it is valid UTF-8, and
/// gives the text that the bytes encode.
pub assume_specification[ core::str::from_utf8 ](v: &[u8]) -> (out: Result<
    &str,
    core::str::Utf8Error,
>)
    ensures
        out is Ok <==> vstd::utf8::valid_utf8(v@),
        out is Ok ==> out->Ok_0@ == vstd::utf8::decode_utf8(v@),
;

/// Text that `String::from_utf8_lossy` makes of arbitrary bytes.
pub uninterp spec fn lossy_text(bytes: Seq<u8>) -> Seq<char>;

/// `String::from_utf8_lossy` gives the text that valid UTF-8 encodes; in other bytes
/// it puts a replacement character for what cannot be decoded, and which pieces
/// those are is left to its name.
#[verifier::external_body]
pub(crate) fn from_utf8_lossy(bytes: &[u8]) -> (out: String)
    ensures
        out@ == lossy_text(bytes@),
        vstd::utf8::valid_utf8(bytes@) ==> out@ == vstd::utf8::decode_utf8(bytes@),
{
    String::from_utf8_lossy(bytes).into_owned()
}

/// Lowercase form of a text, as `str::to_lowercase` gives it.
pub uninterp spec fn lowercase_text(s: Seq<char>) -> Seq<char>;

/// Whether a text is made of ASCII characters.
pub open spec fn ascii(s: Seq<char>) -> bool {
    forall|i: int| 0 <= i < s.len() ==> (#[trigger] s[i] as int) < 128
}

/// An ASCII character in lower case.
pub open spec fn ascii_lower(c: char) -> char {
    if 'A' <= c <= 'Z' {
        (c as int + 32) as char
    } else {
        c
    }
}

/// `str::to_lowercase` depends on the text alone. ASCII text becomes ASCII text of the
/// same length with its letters in lower case; what other text becomes is left to its
/// name.
pub assume_specification[ str::to_lowercase ](s: &str) -> (out: String)
    ensures
        out@ == lowercase_text(s@),
        ascii(s@) ==> out@ == s@.map_values(|c: char| ascii_lower(c)),
;

/// The UTF-8 encoding of a string.
pub fn bytes_of(s: &str) -> (out: Vec<u8>)
    ensures
        out@ == vstd::utf8::encode_utf8(s@),
{
    s.as_bytes_vec()
}

// ---- Laws of texts ---------------------------------------------------------

/// Trimming takes white space off both ends and nothing else: the text is what was left of
/// it, with white space before and behind, and what is left neither begins nor ends with
/// white space.
pub proof fn law_trimming_takes_white_ends_off(s: Seq<char>)
    ensures
        exists|a: int, b: int|
            #![trigger s.subrange(a, b)]
            0 <= a <= b <= s.len() && trimmed(s) == s.subrange(a, b) && (forall|j: int|
                0 <= j < a ==> white(#[trigger] s[j])) && (forall|j: int|
                b <= j < s.len() ==> white(#[trigger] s[j])),
        trimmed(s).len() > 0 ==> !white(trimmed(s)[0]) && !white(trimmed(s).last()),
{
    let a = leading_white(s) as int;
    lemma_leading_run(s);
    let t = s.skip(a);
    lemma_trailing_run(t);
    let b = s.len() - trailing_white(t);
    assert(trimmed(s) =~= s.subrange(a, b));
    assert forall|j: int| b <= j < s.len() implies white(#[trigger] s[j]) by {
        assert(t[j - a] == s[j]);
    }
    if trimmed(s).len() > 0 {
        assert(trimmed(s)[0] == t[0]);
        assert(t[0] == s[a]);
        assert(trimmed(s).last() == t[t.len() - trailing_white(t) - 1]);
    }
}

proof fn lemma_leading_run(s: Seq<char>)
    ensures
        leading_white(s) <= s.len(),
        forall|j: int| 0 <= j < leading_white(s) ==> white(#[trigger] s[j]),
        leading_white(s) < s.len() ==> !white(s[leading_white(s) as int]),
    decreases s.len(),
{
    if s.len() > 0 && white(s[0]) {
        let t = s.drop_first();
        lemma_leading_run(t);
        assert forall|j: int| 0 <= j < leading_white(s) implies white(#[trigger] s[j]) by {
            if j > 0 {
                assert(t[j - 1] == s[j]);
            }
        }
        if leading_white(s) < s.len() {
            assert(t[leading_white(t) as int] == s[leading_white(s) as int]);
        }
    }
}

proof fn lemma_trailing_run(s: Seq<char>)
    ensures
        trailing_white(s) <= s.len(),
        forall|j: int| s.len() - trailing_white(s) <= j < s.len() ==> white(#[trigger] s[j]),
        trailing_white(s) < s.len() ==> !white(s[s.len() - trailing_white(s) - 1]),
    decreases s.len(),
{
    if s.len() > 0 && white(s.last()) {
        let t = s.drop_last();
        lemma_trailing_run(t);
        assert forall|j: int| s.len() - trailing_white(s) <= j < s.len() implies white(
            #[trigger] s[j],
        ) by {
            if j < t.len() {
                assert(t[j] == s[j]);
            }
        }
        if trailing_white(s) < s.len() {
            assert(t[t.len() - trailing_white(t) - 1] == s[s.len() - trailing_white(s) - 1]);
        }
    }
}

/// White space among the first 128 characters is the space, the tab and what breaks a line
/// or a page; beyond them it is what Unicode calls so. Letters, digits and signs are none.
pub proof fn law_white_space_is_that_of_unicode(c: char)
    ensures
        c <= '\u{7f}' ==> (white(c) <==> c == ' ' || c == '\t' || c == '\n' || c == '\r' || c
            == '\u{b}' || c == '\u{c}'),
        c > '\u{7f}' ==> (white(c) <==> c == '\u{85}' || c == '\u{a0}' || c == '\u{1680}' || (
        '\u{2000}' <= c <= '\u{200a}') || c == '\u{2028}' || c == '\u{2029}' || c == '\u{202f}'
            || c == '\u{205f}' || c == '\u{3000}'),
{
}

/// A text begins or ends with another where the two agree on all of its characters.
pub proof fn law_beginnings_and_ends_agree(s: Seq<char>, p: Seq<char>, rest: Seq<char>)
    ensures
        has_prefix(p + rest, p),
        has_suffix(rest + p, p),
        has_part(rest + p + s, p),
        has_prefix(s, p) ==> s == p + s.skip(p.len() as int),
        has_suffix(s, p) ==> s == s.take(s.len() - p.len()) + p,
        has_part(s, p) ==> exists|i: int|
            0 <= i <= s.len() - p.len() && s == #[trigger] s.take(i) + p + s.skip(i + p.len()),
{
    assert((p + rest).take(p.len() as int) =~= p);
    assert((rest + p).skip(rest.len() as int) =~= p);
    assert((rest + p + s).subrange(rest.len() as int, (rest.len() + p.len()) as int) =~= p);
    assert(occurs_at(rest + p + s, p, rest.len() as int));
    if has_prefix(s, p) {
        assert(s =~= s.take(p.len() as int) + s.skip(p.len() as int));
    }
    if has_suffix(s, p) {
        let n = s.len() - p.len();
        assert(s =~= s.take(n) + s.skip(n));
    }
    if has_part(s, p) {
        let i = choose|i: int| occurs_at(s, p, i);
        assert(s =~= s.take(i) + s.subrange(i, i + p.len()) + s.skip(i + p.len()));
    }
}

/// The first position of a part is one where it occurs, and it occurs nowhere before; there
/// is one wherever it occurs at all.
pub proof fn law_first_position_is_the_first(s: Seq<char>, p: Seq<char>)
    ensures
        match first_of(s, p) {
            Some(k) => {
                &&& 0 <= k <= s.len() - p.len()
                &&& s.subrange(k, k + p.len()) == p
                &&& forall|j: int|
                    0 <= j < k ==> #[trigger] s.subrange(j, j + p.len()) != p
            },
            None => forall|j: int|
                0 <= j <= s.len() - p.len() ==> #[trigger] s.subrange(j, j + p.len()) != p,
        },
{
    lemma_first_from(s, p, 0);
    match first_of(s, p) {
        Some(k) => {
            assert forall|j: int| 0 <= j < k implies #[trigger] s.subrange(j, j + p.len()) != p by {
                assert(!occurs_at(s, p, j));
            }
        },
        None => {
            assert forall|j: int| 0 <= j <= s.len() - p.len() implies #[trigger] s.subrange(
                j,
                j + p.len(),
            ) != p by {
                assert(!occurs_at(s, p, j));
            }
        },
    }
}

/// Words are what white space separates: white space alone has none, and a run of other
/// characters, followed by white space or by nothing, is the first word of a text.
pub proof fn law_words_are_separated_by_white_space(
    gap: Seq<char>,
    word: Seq<char>,
    rest: Seq<char>,
)
    requires
        forall|j: int| 0 <= j < gap.len() ==> white(#[trigger] gap[j]),
        forall|j: int| 0 <= j < word.len() ==> !white(#[trigger] word[j]),
        word.len() > 0,
        rest.len() > 0 ==> white(rest[0]),
    ensures
        words_of(gap) == Seq::<Seq<char>>::empty(),
        words_of(gap + word + rest) == seq![word] + words_of(rest),
{
    lemma_leading_white(gap, gap.len() as int);
    let s = gap + word + rest;
    let g = gap.len() as int;
    assert(s[g] == word[0]);
    assert forall|j: int| 0 <= j < g implies white(#[trigger] s[j]) by {
        assert(s[j] == gap[j]);
    }
    lemma_leading_white(s, g);
    let t = s.skip(g);
    assert(t =~= word + rest);
    let n = word.len() as int;
    assert forall|j: int| 0 <= j < n implies !white(#[trigger] t[j]) by {
        assert(t[j] == word[j]);
    }
    if rest.len() > 0 {
        assert(t[n] == rest[0]);
    }
    lemma_leading_ink(t, n);
    assert(t.take(n) =~= word);
    assert(t.skip(n) =~= rest);
}

/// Fields are what a separator separates, and empty ones count: a text without a separator is
/// one field, and each separator ends a field.
pub proof fn law_fields_end_at_separators(field: Seq<char>, rest: Seq<char>, sep: char)
    requires
        !field.contains(sep),
    ensures
        fields_of(field, sep) == seq![field],
        fields_of(field + seq![sep] + rest, sep) == seq![field] + fields_of(rest, sep),
{
    let n = field.len() as int;
    assert forall|j: int| 0 <= j < n implies #[trigger] field[j] != sep by {
        assert(field.contains(field[j]));
    }
    lemma_before_sep(field, sep, n);
    let s = field + seq![sep] + rest;
    assert forall|j: int| 0 <= j < n implies #[trigger] s[j] != sep by {
        assert(s[j] == field[j]);
    }
    assert(s[n] == sep);
    lemma_before_sep(s, sep, n);
    assert(s.take(n) =~= field);
    assert(s.skip(n + 1) =~= rest);
}

/// Lines end with a line feed, which is not part of them, nor is a carriage return right
/// before it. What stands behind the last line feed is a line if it is not empty.
pub proof fn law_lines_end_at_line_feeds(line: Seq<char>, rest: Seq<char>)
    requires
        !line.contains('\n'),
    ensures
        lines_of(Seq::<char>::empty()) == Seq::<Seq<char>>::empty(),
        line.len() > 0 ==> lines_of(line) == seq![line],
        line.len() == 0 || line.last() != '\r' ==> lines_of(line + seq!['\n'] + rest) == seq![line]
            + lines_of(rest),
        lines_of(line + seq!['\r', '\n'] + rest) == seq![line] + lines_of(rest),
{
    let n = line.len() as int;
    assert forall|j: int| 0 <= j < n implies #[trigger] line[j] != '\n' by {
        assert(line.contains(line[j]));
    }
    lemma_before_sep(line, '\n', n);
    let s = line + seq!['\n'] + rest;
    assert forall|j: int| 0 <= j < n implies #[trigger] s[j] != '\n' by {
        assert(s[j] == line[j]);
    }
    assert(s[n] == '\n');
    lemma_before_sep(s, '\n', n);
    assert(s.take(n) =~= line);
    assert(s.skip(n + 1) =~= rest);
    let t = line + seq!['\r', '\n'] + rest;
    assert(t[n] == '\r');
    assert(t[n + 1] == '\n');
    assert forall|j: int| 0 <= j < n + 1 implies #[trigger] t[j] != '\n' by {
        if j < n {
            assert(t[j] == line[j]);
        }
    }
    lemma_before_sep(t, '\n', n + 1);
    assert(t.take(n + 1).drop_last() =~= line);
    assert(t.take(n + 1).last() == '\r');
    assert(t.skip(n + 2) =~= rest);
}

/// A text in which a part does not occur is left as it is, and each occurrence that nothing
/// overlaps from the left is replaced: the text before it stays, and the rest is treated
/// alike.
pub proof fn law_occurrences_are_replaced(
    before: Seq<char>,
    from: Seq<char>,
    to: Seq<char>,
    rest: Seq<char>,
)
    requires
        from.len() > 0,
        forall|i: int| 0 <= i < before.len() ==> !occurs_at(before + from + rest, from, i),
    ensures
        replaced(before + from + rest, from, to) == before + to + replaced(rest, from, to),
        !has_part(rest, from) ==> replaced(rest, from, to) == rest,
    decreases before.len(),
{
    let s = before + from + rest;
    if before.len() == 0 {
        assert(s =~= from + rest);
        assert(s.take(from.len() as int) =~= from);
        assert(s.skip(from.len() as int) =~= rest);
        assert(before + to + replaced(rest, from, to) =~= to + replaced(rest, from, to));
    } else {
        let tail = before.drop_first();
        let u = tail + from + rest;
        assert(s.drop_first() =~= u);
        assert forall|i: int| 0 <= i < tail.len() implies !occurs_at(u, from, i) by {
            if occurs_at(u, from, i) {
                assert(s.subrange(i + 1, i + 1 + from.len()) =~= u.subrange(i, i + from.len()));
                assert(occurs_at(s, from, i + 1));
            }
        }
        law_occurrences_are_replaced(tail, from, to, rest);
        assert(!occurs_at(s, from, 0));
        if has_prefix(s, from) {
            assert(s.subrange(0, from.len() as int) =~= s.take(from.len() as int));
        }
        assert(s[0] == before[0]);
        assert(seq![before[0]] + (tail + to + replaced(rest, from, to)) =~= before + to + replaced(
            rest,
            from,
            to,
        ));
    }
    if !has_part(rest, from) {
        lemma_nothing_to_replace(rest, from, to);
    }
}

proof fn lemma_nothing_to_replace(s: Seq<char>, from: Seq<char>, to: Seq<char>)
    requires
        !has_part(s, from),
    ensures
        replaced(s, from, to) == s,
    decreases s.len(),
{
    if from.len() > 0 && s.len() > 0 {
        if has_prefix(s, from) {
            assert(s.subrange(0, from.len() as int) =~= s.take(from.len() as int));
            assert(occurs_at(s, from, 0));
        }
        let t = s.drop_first();
        if has_part(t, from) {
            let i = choose|i: int| occurs_at(t, from, i);
            assert(s.subrange(i + 1, i + 1 + from.len()) =~= t.subrange(i, i + from.len()));
            assert(occurs_at(s, from, i + 1));
        }
        lemma_nothing_to_replace(t, from, to);
        assert(seq![s[0]] + t =~= s);
    }
}

/// A number is read digit by digit from the left: one digit more makes ten times the number
/// and the digit. What is above the limit, holds anything but digits, or nothing, is no
/// number; a plus sign in front changes nothing.
pub proof fn law_numbers_are_read_digit_by_digit(s: Seq<char>, c: char, max: int)
    requires
        forall|i: int| 0 <= i < s.len() ==> '0' <= #[trigger] s[i] <= '9',
    ensures
        number_in(Seq::empty(), max) is None,
        !('0' <= c <= '9') ==> number_in(s.push(c), max) is None || (s.len() == 0 && c == '+'),
        '0' <= c <= '9' ==> ({
            let before = match number_in(s, max) {
                Some(n) => n,
                None => 0,
            };
            let n = before * 10 + (c as int - '0' as int);
            (s.len() == 0 && 0 <= max) || number_in(s, max) is Some ==> number_in(s.push(c), max)
                == if n <= max {
                Some(n)
            } else {
                None
            }
        }),
        s.len() > 0 ==> number_in(seq!['+'] + s, max) == number_in(s, max),
        s.len() > 0 && number_in(s, max) is None ==> number_in(s.push(c), max) is None,
{
    let t = s.push(c);
    assert(t.drop_last() =~= s);
    assert(t.last() == c);
    if s.len() > 0 {
        assert(s[0] != '+');
        assert(t[0] == s[0]);
        assert((seq!['+'] + s).drop_first() =~= s);
        assert(all_digits(s));
    }
    if '0' <= c <= '9' {
        assert(all_digits(t));
    } else if all_digits(t) {
        assert(digit(t[s.len() as int]));
    }
    if all_digits(t) {
        lemma_decimal_grows(t, s.len() as int);
        assert(t.take(s.len() as int) =~= s);
    }
    reveal_with_fuel(decimal_value, 2);
}

/// Of a text its digits are kept, in their order, and nothing else.
pub proof fn law_digits_are_kept_one_by_one(a: Seq<char>, b: Seq<char>, c: char)
    ensures
        digits_in(a + b) == digits_in(a) + digits_in(b),
        '0' <= c <= '9' ==> digits_in(seq![c]) == seq![c],
        !('0' <= c <= '9') ==> digits_in(seq![c]) == Seq::<char>::empty(),
        digits_in(Seq::<char>::empty()) == Seq::<char>::empty(),
    decreases b.len(),
{
    let one = seq![c];
    assert(one.drop_last() =~= Seq::empty());
    reveal_with_fuel(digits_in, 2);
    assert(Seq::<char>::empty().push(c) =~= one);
    if b.len() == 0 {
        assert(a + b =~= a);
        assert(digits_in(a) + digits_in(b) =~= digits_in(a));
    } else {
        law_digits_are_kept_one_by_one(a, b.drop_last(), c);
        assert((a + b).drop_last() =~= a + b.drop_last());
        assert((a + b).last() == b.last());
        assert(digits_in(a + b) =~= digits_in(a) + digits_in(b));
    }
}

/// A number is written without leading zeros: its digits are those of a tenth of it,
/// followed by the digit of what is left.
pub proof fn law_numbers_are_written_in_tens(n: nat)
    ensures
        n < 10 ==> decimal_text(n) == seq![(48 + n) as char],
        10 <= n ==> decimal_text(n) == decimal_text(n / 10) + seq![(48 + n % 10) as char],
        10 <= n ==> decimal_text(n)[0] != '0',
    decreases n,
{
    if 10 <= n {
        law_numbers_are_written_in_tens(n / 10);
        assert(decimal_text(n) =~= decimal_text(n / 10) + seq![(48 + n % 10) as char]);
        lemma_decimal_text(n / 10);
        assert(decimal_text(n)[0] == decimal_text(n / 10)[0]);
    }
}

/// The message of a call that failed is the name of the call, a colon, a space and what went
/// wrong.
pub proof fn law_failures_are_named(call: Seq<char>, detail: Seq<char>)
    ensures
        failure_text(call, detail) == call + seq![':', ' '] + detail,
{
    reveal_strlit(": ");
    assert(": "@ =~= seq![':', ' ']);
}

/// What reads as a number is one: digits alone, at least one of them, with a plus sign in front
/// or without it, and not above the limit.
pub proof fn law_only_digits_read_as_a_number(s: Seq<char>, max: int)
    requires
        number_in(s, max) is Some,
    ensures
        number_in(s, max)->0 <= max,
        s.len() > 0,
        s[0] == '+' ==> s.len() > 1,
        forall|i: int| 0 < i < s.len() ==> '0' <= #[trigger] s[i] <= '9',
        s[0] == '+' || '0' <= s[0] <= '9',
{
    if s[0] == '+' {
        let ds = s.drop_first();
        assert forall|i: int| 0 < i < s.len() implies '0' <= #[trigger] s[i] <= '9' by {
            assert(digit(ds[i - 1]));
        }
    } else {
        assert forall|i: int| 0 <= i < s.len() implies '0' <= #[trigger] s[i] <= '9' by {
            assert(digit(s[i]));
        }
    }
}

}
