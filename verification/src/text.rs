//! Character-level model of the text formats the updater reads: whitespace,
//! trimming, splitting into words and lines, and decimal numbers.
use vstd::prelude::*;

verus! {

// ---------------------------------------------------------------------------
// Specification
// ---------------------------------------------------------------------------

/// Unicode `White_Space` characters (what `char::is_whitespace` accepts).
pub open spec fn is_ws(c: char) -> bool {
    ||| '\t' <= c <= '\r'
    ||| c == ' '
    ||| c == '\u{85}'
    ||| c == '\u{a0}'
    ||| c == '\u{1680}'
    ||| '\u{2000}' <= c <= '\u{200a}'
    ||| c == '\u{2028}'
    ||| c == '\u{2029}'
    ||| c == '\u{202f}'
    ||| c == '\u{205f}'
    ||| c == '\u{3000}'
}

/// `s` with its leading whitespace removed (`str::trim_start`).
pub open spec fn trim_start(s: Seq<char>) -> Seq<char>
    decreases s.len(),
{
    if s.len() > 0 && is_ws(s[0]) {
        trim_start(s.drop_first())
    } else {
        s
    }
}

/// `s` with its trailing whitespace removed (`str::trim_end`).
pub open spec fn trim_end(s: Seq<char>) -> Seq<char>
    decreases s.len(),
{
    if s.len() > 0 && is_ws(s.last()) {
        trim_end(s.drop_last())
    } else {
        s
    }
}

/// `s` without leading and trailing whitespace (`str::trim`).
pub open spec fn trim(s: Seq<char>) -> Seq<char> {
    trim_end(trim_start(s))
}

/// `s` with every leading occurrence of `c` removed (`str::trim_start_matches`).
pub open spec fn strip_leading(s: Seq<char>, c: char) -> Seq<char>
    decreases s.len(),
{
    if s.len() > 0 && s[0] == c {
        strip_leading(s.drop_first(), c)
    } else {
        s
    }
}

/// Scanning `s` from the left: the whitespace-separated words completed so far,
/// and the word still being read.
pub open spec fn scan_words(s: Seq<char>) -> (Seq<Seq<char>>, Seq<char>)
    decreases s.len(),
{
    if s.len() == 0 {
        (Seq::empty(), Seq::empty())
    } else {
        let (done, cur) = scan_words(s.drop_last());
        let c = s.last();
        if is_ws(c) {
            if cur.len() > 0 {
                (done.push(cur), Seq::empty())
            } else {
                (done, Seq::empty())
            }
        } else {
            (done, cur.push(c))
        }
    }
}

/// The maximal runs of non-whitespace characters of `s`, in order
/// (`str::split_whitespace`).
pub open spec fn words(s: Seq<char>) -> Seq<Seq<char>> {
    let (done, cur) = scan_words(s);
    if cur.len() > 0 {
        done.push(cur)
    } else {
        done
    }
}

/// The pieces of `s` between occurrences of `sep` (`str::split`); there is
/// always at least one piece.
pub open spec fn split_on(s: Seq<char>, sep: char) -> Seq<Seq<char>>
    decreases s.len(),
{
    if s.len() == 0 {
        seq![Seq::empty()]
    } else {
        let p = split_on(s.drop_last(), sep);
        if s.last() == sep {
            p.push(Seq::empty())
        } else {
            p.update(p.len() - 1, p.last().push(s.last()))
        }
    }
}

/// The lines of `s`, split at each `'\n'`, with no empty line after a final
/// newline (`str::lines`, before a carriage return that ends a line is cut
/// off; every user here trims the line, which removes it as well).
pub open spec fn lines(s: Seq<char>) -> Seq<Seq<char>> {
    let p = split_on(s, '\n');
    if p.last().len() == 0 {
        p.drop_last()
    } else {
        p
    }
}

/// `suffix` is a suffix of `s` (`str::ends_with`).
pub open spec fn ends_with(s: Seq<char>, suffix: Seq<char>) -> bool {
    suffix.len() <= s.len() && s.subrange(s.len() - suffix.len(), s.len() as int) == suffix
}

/// `pat` occurs somewhere in `s` (`str::contains`).
pub open spec fn contains(s: Seq<char>, pat: Seq<char>) -> bool {
    exists|i: int|
        0 <= i && i + pat.len() <= s.len() && #[trigger] s.subrange(i, i + pat.len()) == pat
}

/// An ASCII decimal digit.
pub open spec fn is_digit(c: char) -> bool {
    '0' <= c <= '9'
}

pub open spec fn all_digits(d: Seq<char>) -> bool {
    forall|i: int| 0 <= i < d.len() ==> is_digit(#[trigger] d[i])
}

/// The value of a string of decimal digits, most significant first.
pub open spec fn decimal_value(d: Seq<char>) -> nat
    decreases d.len(),
{
    if d.len() == 0 {
        0
    } else {
        decimal_value(d.drop_last()) * 10 + ((d.last() as int - '0' as int) as nat)
    }
}

/// What `str::parse::<u64>` accepts: an optional `+`, then one or more ASCII
/// digits whose value fits in 64 bits.
pub open spec fn parse_u64(s: Seq<char>) -> Option<u64> {
    let d = if s.len() > 0 && s[0] == '+' {
        s.drop_first()
    } else {
        s
    };
    if d.len() > 0 && all_digits(d) && decimal_value(d) <= u64::MAX {
        Some(decimal_value(d) as u64)
    } else {
        None
    }
}

/// The ASCII digit for `d < 10`.
pub open spec fn digit_char(d: nat) -> char {
    ('0' as int + d) as char
}

/// The shortest decimal representation of `n` (what `{}` prints for an integer).
pub open spec fn decimal(n: nat) -> Seq<char>
    decreases n,
{
    if n < 10 {
        seq![digit_char(n)]
    } else {
        decimal(n / 10).push(digit_char(n % 10))
    }
}

/// The position of the first `c` in `s`, if any.
pub open spec fn first_index(s: Seq<char>, c: char) -> Option<int>
    decreases s.len(),
{
    if s.len() == 0 {
        None
    } else {
        match first_index(s.drop_last(), c) {
            Some(i) => Some(i),
            None => if s.last() == c {
                Some(s.len() - 1)
            } else {
                None
            },
        }
    }
}

// ---------------------------------------------------------------------------
// Lemmas
// ---------------------------------------------------------------------------

/// `first_index` finds exactly the first occurrence.
pub proof fn lemma_first_index(s: Seq<char>, c: char)
    ensures
        match first_index(s, c) {
            Some(i) => 0 <= i < s.len() && s[i] == c && forall|k: int| 0 <= k < i ==> #[trigger] s[k] != c,
            None => forall|k: int| 0 <= k < s.len() ==> #[trigger] s[k] != c,
        },
    decreases s.len(),
{
    if s.len() > 0 {
        let t = s.drop_last();
        lemma_first_index(t, c);
        assert forall|k: int| 0 <= k < t.len() implies t[k] == s[k] by {}
    }
}

/// An occurrence with none before it is the first.
pub proof fn lemma_first_index_at(s: Seq<char>, c: char, i: int)
    requires
        0 <= i < s.len(),
        s[i] == c,
        forall|k: int| 0 <= k < i ==> #[trigger] s[k] != c,
    ensures
        first_index(s, c) == Some(i),
{
    lemma_first_index(s, c);
    match first_index(s, c) {
        Some(j) => {
            if j < i {
                assert(s[j] != c);
            }
            if j > i {
                assert(s[i] != c);
            }
        },
        None => {
            assert(s[i] != c);
        },
    }
}

/// With no occurrence, there is no first one.
pub proof fn lemma_first_index_none(s: Seq<char>, c: char)
    requires
        forall|k: int| 0 <= k < s.len() ==> #[trigger] s[k] != c,
    ensures
        first_index(s, c) is None,
{
    lemma_first_index(s, c);
    if let Some(j) = first_index(s, c) {
        assert(s[j] != c);
    }
}

pub proof fn lemma_split_on_nonempty(s: Seq<char>, sep: char)
    ensures
        split_on(s, sep).len() >= 1,
    decreases s.len(),
{
    if s.len() > 0 {
        lemma_split_on_nonempty(s.drop_last(), sep);
    }
}

/// Leading whitespace ends at `a`: trimming it leaves `s[a..]`.
pub proof fn lemma_trim_start_at(s: Seq<char>, a: int)
    requires
        0 <= a <= s.len(),
        forall|k: int| 0 <= k < a ==> is_ws(#[trigger] s[k]),
        a == s.len() || !is_ws(s[a]),
    ensures
        trim_start(s) == s.subrange(a, s.len() as int),
    decreases a,
{
    if a == 0 {
        assert(s.subrange(0, s.len() as int) =~= s);
    } else {
        let t = s.drop_first();
        assert forall|k: int| 0 <= k < a - 1 implies is_ws(#[trigger] t[k]) by {
            assert(t[k] == s[k + 1]);
        }
        if a - 1 < t.len() {
            assert(t[a - 1] == s[a]);
        }
        lemma_trim_start_at(t, a - 1);
        assert(t.subrange(a - 1, t.len() as int) =~= s.subrange(a, s.len() as int));
    }
}

/// Trailing whitespace starts at `b`: trimming it leaves `s[..b]`.
pub proof fn lemma_trim_end_at(s: Seq<char>, b: int)
    requires
        0 <= b <= s.len(),
        forall|k: int| b <= k < s.len() ==> is_ws(#[trigger] s[k]),
        b == 0 || !is_ws(s[b - 1]),
    ensures
        trim_end(s) == s.subrange(0, b),
    decreases s.len() - b,
{
    if b == s.len() {
        assert(s.subrange(0, b) =~= s);
    } else {
        let t = s.drop_last();
        assert forall|k: int| b <= k < t.len() implies is_ws(#[trigger] t[k]) by {
            assert(t[k] == s[k]);
        }
        if b > 0 {
            assert(t[b - 1] == s[b - 1]);
        }
        lemma_trim_end_at(t, b);
        assert(t.subrange(0, b) =~= s.subrange(0, b));
    }
}

/// Leading occurrences of `c` end at `a`: stripping them leaves `s[a..]`.
pub proof fn lemma_strip_leading_at(s: Seq<char>, c: char, a: int)
    requires
        0 <= a <= s.len(),
        forall|k: int| 0 <= k < a ==> #[trigger] s[k] == c,
        a == s.len() || s[a] != c,
    ensures
        strip_leading(s, c) == s.subrange(a, s.len() as int),
    decreases a,
{
    if a == 0 {
        assert(s.subrange(0, s.len() as int) =~= s);
    } else {
        let t = s.drop_first();
        assert forall|k: int| 0 <= k < a - 1 implies #[trigger] t[k] == c by {
            assert(t[k] == s[k + 1]);
        }
        if a - 1 < t.len() {
            assert(t[a - 1] == s[a]);
        }
        lemma_strip_leading_at(t, c, a - 1);
        assert(t.subrange(a - 1, t.len() as int) =~= s.subrange(a, s.len() as int));
    }
}

pub proof fn lemma_decimal_value_prefix_le(d: Seq<char>, i: int)
    requires
        0 <= i <= d.len(),
        all_digits(d),
    ensures
        decimal_value(d.take(i)) <= decimal_value(d),
    decreases d.len() - i,
{
    if i < d.len() {
        lemma_decimal_value_prefix_le(d, i + 1);
        assert(d.take(i + 1).drop_last() =~= d.take(i));
        assert(is_digit(d[i]));
    } else {
        assert(d.take(i) =~= d);
    }
}

pub proof fn lemma_decimal_digits(n: nat)
    ensures
        decimal(n).len() >= 1,
        all_digits(decimal(n)),
        decimal_value(decimal(n)) == n,
        decimal(n)[0] != '+',
    decreases n,
{
    if n >= 10 {
        lemma_decimal_digits(n / 10);
        let d = decimal(n);
        assert(d.drop_last() =~= decimal(n / 10));
        assert(d.last() == digit_char(n % 10));
        assert(digit_char(n % 10) as int == '0' as int + n % 10);
        assert((n / 10) * 10 + n % 10 == n) by (nonlinear_arith);
        assert(decimal_value(d) == decimal_value(d.drop_last()) * 10 + ((d.last() as int - '0' as int) as nat));
        assert(decimal_value(d.drop_last()) == n / 10);
        assert forall|i: int| 0 <= i < d.len() implies is_digit(#[trigger] d[i]) by {
            if i < d.len() - 1 {
                assert(d[i] == decimal(n / 10)[i]);
            }
        }
    } else {
        assert(digit_char(n) as int == '0' as int + n);
        let d = decimal(n);
        assert(d.drop_last() =~= Seq::<char>::empty());
        assert(decimal_value(d) == decimal_value(d.drop_last()) * 10 + ((d.last() as int - '0' as int) as nat));
    }
}

/// A decimal rendering of a 64-bit value parses back to it.
pub proof fn lemma_parse_decimal(n: u64)
    ensures
        parse_u64(decimal(n as nat)) == Some(n),
{
    lemma_decimal_digits(n as nat);
}

/// Splitting after appending a piece with no separator extends the last piece.
pub proof fn lemma_split_on_append_plain(s: Seq<char>, t: Seq<char>, sep: char)
    requires
        forall|k: int| 0 <= k < t.len() ==> #[trigger] t[k] != sep,
    ensures
        split_on(s + t, sep) == split_on(s, sep).update(
            split_on(s, sep).len() - 1,
            split_on(s, sep).last() + t,
        ),
    decreases t.len(),
{
    lemma_split_on_nonempty(s, sep);
    let p = split_on(s, sep);
    if t.len() == 0 {
        assert(s + t =~= s);
        assert(p.last() + t =~= p.last());
        assert(p.update(p.len() - 1, p.last()) =~= p);
    } else {
        let t0 = t.drop_last();
        assert forall|k: int| 0 <= k < t0.len() implies #[trigger] t0[k] != sep by {
            assert(t0[k] == t[k]);
        }
        lemma_split_on_append_plain(s, t0, sep);
        assert((s + t).drop_last() =~= s + t0);
        assert((s + t).last() == t.last());
        let q = split_on(s + t0, sep);
        assert(split_on(s + t, sep) == q.update(q.len() - 1, q.last().push(t.last())));
        assert(q.len() == p.len());
        assert(q.last() == p.last() + t0);
        assert(q.last().push(t.last()) =~= p.last() + t);
        assert(split_on(s + t, sep) =~= p.update(p.len() - 1, p.last() + t));
    }
}

/// Splitting after appending a separator starts a new, empty piece.
pub proof fn lemma_split_on_append_sep(s: Seq<char>, sep: char)
    ensures
        split_on(s.push(sep), sep) == split_on(s, sep).push(Seq::empty()),
{
    assert(s.push(sep).drop_last() =~= s);
}


// ---------------------------------------------------------------------------
// What splitting into words gives
// ---------------------------------------------------------------------------

/// The characters of a list of words, one after another.
pub open spec fn joined(ws: Seq<Seq<char>>) -> Seq<char>
    decreases ws.len(),
{
    if ws.len() == 0 {
        Seq::empty()
    } else {
        joined(ws.drop_last()) + ws.last()
    }
}

/// The characters of `s` that are not whitespace, in order.
pub open spec fn non_ws_chars(s: Seq<char>) -> Seq<char>
    decreases s.len(),
{
    if s.len() == 0 {
        Seq::empty()
    } else if is_ws(s.last()) {
        non_ws_chars(s.drop_last())
    } else {
        non_ws_chars(s.drop_last()).push(s.last())
    }
}

/// `w` stands in `s` at `p` as a maximal run of characters: whitespace (or
/// the start of `s`) before it, and whitespace (or the end of `s`) after it.
pub open spec fn is_run_at(s: Seq<char>, w: Seq<char>, p: int) -> bool {
    &&& 0 <= p
    &&& p + w.len() <= s.len()
    &&& s.subrange(p, p + w.len()) == w
    &&& p == 0 || is_ws(s[p - 1])
    &&& p + w.len() == s.len() || is_ws(s[p + w.len()])
}

/// `w` stands somewhere in `s` as a maximal run of characters.
pub open spec fn is_run_in(s: Seq<char>, w: Seq<char>) -> bool {
    exists|p: int| is_run_at(s, w, p)
}

/// A word holds at least one character and no whitespace.
pub open spec fn is_word(w: Seq<char>) -> bool {
    w.len() > 0 && forall|k: int| 0 <= k < w.len() ==> !is_ws(#[trigger] w[k])
}

/// What scanning `s` for words has found: completed words are maximal runs
/// followed by whitespace, the word being read is the run at the end of `s`,
/// and no non-whitespace character is lost.
spec fn scan_holds(s: Seq<char>) -> bool {
    let (done, cur) = scan_words(s);
    &&& forall|i: int|
        0 <= i < done.len() ==> is_word(#[trigger] done[i]) && exists|p: int|
            is_run_at(s, done[i], p) && p + done[i].len() < s.len()
    &&& forall|k: int| 0 <= k < cur.len() ==> !is_ws(#[trigger] cur[k])
    &&& cur.len() <= s.len()
    &&& cur == s.subrange(s.len() - cur.len(), s.len() as int)
    &&& cur.len() > 0 ==> (s.len() == cur.len() || is_ws(s[s.len() - cur.len() - 1]))
    &&& s.len() > 0 ==> (cur.len() == 0 <==> is_ws(s.last()))
    &&& joined(done) + cur == non_ws_chars(s)
}

proof fn lemma_scan_holds(s: Seq<char>)
    ensures
        scan_holds(s),
    decreases s.len(),
{
    if s.len() == 0 {
        assert(joined(Seq::<Seq<char>>::empty()) + Seq::<char>::empty() =~= Seq::<char>::empty());
        assert(s.subrange(0, 0) =~= Seq::<char>::empty());
        return;
    }
    let t = s.drop_last();
    lemma_scan_holds(t);
    let (done, cur) = scan_words(t);
    let c = s.last();
    assert forall|k: int| 0 <= k < t.len() implies t[k] == s[k] by {}
    // Completed words of `t` stay maximal runs in `s`.
    assert forall|i: int| #![trigger done[i]] 0 <= i < done.len() implies exists|p: int|
        is_run_at(s, done[i], p) && p + done[i].len() < s.len() by {
        let p = choose|p: int| is_run_at(t, done[i], p) && p + done[i].len() < t.len();
        assert(s.subrange(p, p + done[i].len()) =~= t.subrange(p, p + done[i].len()));
        assert(is_run_at(s, done[i], p));
    }
    let q = t.len() - cur.len();
    if is_ws(c) {
        if cur.len() > 0 {
            let d2 = done.push(cur);
            assert(s.subrange(q, q + cur.len()) =~= t.subrange(q, t.len() as int));
            assert(is_run_at(s, cur, q));
            assert forall|i: int| 0 <= i < d2.len() implies is_word(#[trigger] d2[i]) && exists|p: int|
                is_run_at(s, d2[i], p) && p + d2[i].len() < s.len() by {
                if i == done.len() {
                    assert(d2[i] == cur);
                    assert(is_run_at(s, d2[i], q) && q + d2[i].len() < s.len());
                } else {
                    assert(d2[i] == done[i]);
                }
            }
            assert(d2.drop_last() =~= done);
            assert(joined(d2) == joined(done) + cur);
            assert(joined(d2) + Seq::<char>::empty() =~= joined(d2));
        } else {
            assert(joined(done) + Seq::<char>::empty() =~= joined(done));
            assert(joined(done) + cur =~= joined(done));
        }
        assert(s.subrange(s.len() as int, s.len() as int) =~= Seq::<char>::empty());
    } else {
        let c2 = cur.push(c);
        assert(c2 =~= s.subrange(s.len() - c2.len(), s.len() as int));
        if cur.len() > 0 && t.len() > cur.len() {
            assert(s[s.len() - c2.len() - 1] == t[t.len() - cur.len() - 1]);
        }
        if cur.len() == 0 && t.len() > 0 {
            assert(s[s.len() - c2.len() - 1] == t.last());
        }
        assert(joined(done) + c2 =~= (joined(done) + cur).push(c));
    }
}

/// Splitting into words keeps exactly the non-whitespace characters, in
/// order, and cuts them at every whitespace character: each word is a
/// non-empty stretch of non-whitespace characters that stands in `s` between
/// whitespace (or the ends of `s`).
pub proof fn lemma_words_are_runs(s: Seq<char>)
    ensures
        forall|i: int| 0 <= i < words(s).len() ==> is_word(#[trigger] words(s)[i]),
        forall|i: int|
            0 <= i < words(s).len() ==> is_run_in(s, #[trigger] words(s)[i]),
        joined(words(s)) == non_ws_chars(s),
{
    lemma_scan_holds(s);
    let (done, cur) = scan_words(s);
    let ws = words(s);
    let q = s.len() - cur.len();
    if cur.len() > 0 {
        assert(ws == done.push(cur));
        assert(ws.drop_last() =~= done);
        assert(is_run_at(s, cur, q));
    } else {
        assert(ws == done);
        assert(joined(done) + cur =~= joined(done));
    }
    assert forall|i: int| 0 <= i < words(s).len() implies is_run_in(s, #[trigger] words(s)[i]) by {
        if i < done.len() {
            assert(words(s)[i] == done[i]);
            let p = choose|p: int| is_run_at(s, done[i], p) && p + done[i].len() < s.len();
            assert(is_run_at(s, words(s)[i], p));
        } else {
            assert(words(s)[i] == cur);
            assert(is_run_at(s, words(s)[i], q));
        }
    }
    assert forall|i: int| 0 <= i < ws.len() implies is_word(#[trigger] ws[i]) by {
        if i < done.len() {
            assert(ws[i] == done[i]);
        } else {
            assert(ws[i] == cur);
        }
    }
}

/// Whitespace after the last word adds no word: `words(s + c) == words(s)`
/// for every whitespace character `c` (a carriage return among them).
pub proof fn lemma_words_trailing_ws(s: Seq<char>, c: char)
    requires
        is_ws(c),
    ensures
        words(s.push(c)) == words(s),
{
    assert(s.push(c).drop_last() =~= s);
    assert(s.push(c).last() == c);
}

// ---------------------------------------------------------------------------
// Executable helpers
// ---------------------------------------------------------------------------

/// Appends one character to a `String` (std's `String::push`).
#[verifier::external_body]
pub(crate) fn push_char(s: &mut String, c: char)
    ensures
        final(s)@ == old(s)@.push(c),
{
    s.push(c);
}

/// The characters of `s`, in order.
pub fn chars_of(s: &str) -> (out: Vec<char>)
    ensures
        out@ == s@,
{
    let mut out: Vec<char> = Vec::new();
    for c in it: s.chars()
        invariant
            out@ == it.seq().take(it.index() as int),
    {
        out.push(c);
    }
    out
}

/// A `String` holding `s[lo..hi]`.
pub fn string_of(s: &Vec<char>, lo: usize, hi: usize) -> (out: String)
    requires
        lo <= hi <= s@.len(),
    ensures
        out@ == s@.subrange(lo as int, hi as int),
{
    let mut out = String::new();
    let mut i = lo;
    while i < hi
        invariant
            lo <= i <= hi <= s@.len(),
            out@ == s@.subrange(lo as int, i as int),
        decreases hi - i,
    {
        push_char(&mut out, s[i]);
        assert(s@.subrange(lo as int, i + 1) =~= s@.subrange(lo as int, i as int).push(s@[i as int]));
        i += 1;
    }
    out
}

pub fn is_ws_char(c: char) -> (b: bool)
    ensures
        b == is_ws(c),
{
    ('\t' <= c && c <= '\r') || c == ' ' || c == '\u{85}' || c == '\u{a0}' || c == '\u{1680}'
        || ('\u{2000}' <= c && c <= '\u{200a}') || c == '\u{2028}' || c == '\u{2029}'
        || c == '\u{202f}' || c == '\u{205f}' || c == '\u{3000}'
}

/// `s[lo..hi]` and `t` hold the same characters.
pub fn slice_eq(s: &Vec<char>, lo: usize, hi: usize, t: &Vec<char>) -> (b: bool)
    requires
        lo <= hi <= s@.len(),
    ensures
        b == (s@.subrange(lo as int, hi as int) == t@),
{
    if hi - lo != t.len() {
        return false;
    }
    let mut k: usize = 0;
    while k < t.len()
        invariant
            lo <= hi <= s@.len(),
            hi - lo == t@.len(),
            k <= t@.len(),
            forall|j: int| 0 <= j < k ==> s@[lo + j] == t@[j],
        decreases t@.len() - k,
    {
        if s[lo + k] != t[k] {
            assert(s@.subrange(lo as int, hi as int)[k as int] != t@[k as int]);
            return false;
        }
        k += 1;
    }
    assert(s@.subrange(lo as int, hi as int) =~= t@);
    true
}

/// The first index in `lo..hi` holding a non-whitespace character, or `hi`.
pub fn skip_ws_forward(s: &Vec<char>, lo: usize, hi: usize) -> (a: usize)
    requires
        lo <= hi <= s@.len(),
    ensures
        lo <= a <= hi,
        forall|k: int| lo <= k < a ==> is_ws(#[trigger] s@[k]),
        a == hi || !is_ws(s@[a as int]),
{
    let mut a = lo;
    while a < hi && is_ws_char(s[a])
        invariant
            lo <= a <= hi <= s@.len(),
            forall|k: int| lo <= k < a ==> is_ws(#[trigger] s@[k]),
        decreases hi - a,
    {
        a += 1;
    }
    a
}

/// One past the last index in `lo..hi` holding a non-whitespace character, or `lo`.
pub fn skip_ws_backward(s: &Vec<char>, lo: usize, hi: usize) -> (b: usize)
    requires
        lo <= hi <= s@.len(),
    ensures
        lo <= b <= hi,
        forall|k: int| b <= k < hi ==> is_ws(#[trigger] s@[k]),
        b == lo || !is_ws(s@[b - 1]),
{
    let mut b = hi;
    while b > lo && is_ws_char(s[b - 1])
        invariant
            lo <= b <= hi <= s@.len(),
            forall|k: int| b <= k < hi ==> is_ws(#[trigger] s@[k]),
        decreases b - lo,
    {
        b -= 1;
    }
    b
}

/// The bounds of `trim(s[lo..hi])` inside `s`.
pub fn trim_bounds(s: &Vec<char>, lo: usize, hi: usize) -> (r: (usize, usize))
    requires
        lo <= hi <= s@.len(),
    ensures
        lo <= r.0 <= r.1 <= hi,
        trim(s@.subrange(lo as int, hi as int)) == s@.subrange(r.0 as int, r.1 as int),
{
    let a = skip_ws_forward(s, lo, hi);
    let b = skip_ws_backward(s, a, hi);
    proof {
        let w = s@.subrange(lo as int, hi as int);
        assert forall|k: int| 0 <= k < a - lo implies is_ws(#[trigger] w[k]) by {
            assert(w[k] == s@[lo + k]);
        }
        lemma_trim_start_at(w, a - lo);
        let v = s@.subrange(a as int, hi as int);
        assert(w.subrange(a - lo, w.len() as int) =~= v);
        assert forall|k: int| b - a <= k < v.len() implies is_ws(#[trigger] v[k]) by {
            assert(v[k] == s@[a + k]);
        }
        if b > a {
            assert(v[b - a - 1] == s@[b - 1]);
        }
        lemma_trim_end_at(v, b - a);
        assert(v.subrange(0, b - a) =~= s@.subrange(a as int, b as int));
    }
    (a, b)
}

/// Whether `s[lo..hi]` ends with `suffix`.
pub fn slice_ends_with(s: &Vec<char>, lo: usize, hi: usize, suffix: &Vec<char>) -> (b: bool)
    requires
        lo <= hi <= s@.len(),
    ensures
        b == ends_with(s@.subrange(lo as int, hi as int), suffix@),
{
    if suffix.len() > hi - lo {
        return false;
    }
    let start = hi - suffix.len();
    let r = slice_eq(s, start, hi, suffix);
    proof {
        let w = s@.subrange(lo as int, hi as int);
        assert(w.subrange(w.len() - suffix@.len(), w.len() as int) =~= s@.subrange(
            start as int,
            hi as int,
        ));
    }
    r
}


/// The first index in `lo..hi` holding `c`.
pub fn find_char(s: &Vec<char>, lo: usize, hi: usize, c: char) -> (r: Option<usize>)
    requires
        lo <= hi <= s@.len(),
    ensures
        match r {
            Some(i) => lo <= i < hi && first_index(s@.subrange(lo as int, hi as int), c) == Some(
                i - lo,
            ),
            None => first_index(s@.subrange(lo as int, hi as int), c) is None,
        },
{
    let ghost w = s@.subrange(lo as int, hi as int);
    let mut j = lo;
    while j < hi
        invariant
            lo <= j <= hi <= s@.len(),
            w == s@.subrange(lo as int, hi as int),
            forall|k: int| lo <= k < j ==> #[trigger] s@[k] != c,
        decreases hi - j,
    {
        if s[j] == c {
            proof {
                assert forall|k: int| 0 <= k < j - lo implies #[trigger] w[k] != c by {
                    assert(w[k] == s@[lo + k]);
                }
                lemma_first_index_at(w, c, j - lo);
            }
            return Some(j);
        }
        j += 1;
    }
    proof {
        assert forall|k: int| 0 <= k < w.len() implies #[trigger] w[k] != c by {
            assert(w[k] == s@[lo + k]);
        }
        lemma_first_index_none(w, c);
    }
    None
}

/// Index ranges in `s` holding the pieces of `split_on(s[lo..hi], sep)`.
pub fn split_ranges(s: &Vec<char>, lo: usize, hi: usize, sep: char) -> (r: Vec<(usize, usize)>)
    requires
        lo <= hi <= s@.len(),
    ensures
        r@.len() == split_on(s@.subrange(lo as int, hi as int), sep).len(),
        forall|i: int|
            0 <= i < r@.len() ==> {
                &&& lo <= (#[trigger] r@[i]).0 <= r@[i].1 <= hi
                &&& s@.subrange(r@[i].0 as int, r@[i].1 as int) == split_on(
                    s@.subrange(lo as int, hi as int),
                    sep,
                )[i]
            },
{
    let ghost w = s@.subrange(lo as int, hi as int);
    let mut r: Vec<(usize, usize)> = Vec::new();
    let mut start = lo;
    let mut j = lo;
    assert(w.take(0) =~= Seq::<char>::empty());
    while j < hi
        invariant
            lo <= start <= j <= hi <= s@.len(),
            w == s@.subrange(lo as int, hi as int),
            r@.len() + 1 == split_on(w.take(j - lo), sep).len(),
            forall|i: int|
                0 <= i < r@.len() ==> {
                    &&& lo <= (#[trigger] r@[i]).0 <= r@[i].1 <= hi
                    &&& s@.subrange(r@[i].0 as int, r@[i].1 as int) == split_on(
                        w.take(j - lo),
                        sep,
                    )[i]
                },
            s@.subrange(start as int, j as int) == split_on(w.take(j - lo), sep).last(),
        decreases hi - j,
    {
        let ghost prev = split_on(w.take(j - lo), sep);
        let ghost next_w = w.take(j - lo + 1);
        assert(next_w.drop_last() =~= w.take(j - lo));
        assert(next_w.last() == s@[j as int]);
        if s[j] == sep {
            r.push((start, j));
            start = j + 1;
            proof {
                assert(split_on(next_w, sep) == prev.push(Seq::empty()));
                assert(s@.subrange(start as int, j + 1) =~= Seq::<char>::empty());
            }
        } else {
            proof {
                lemma_split_on_nonempty(w.take(j - lo), sep);
                assert(split_on(next_w, sep) == prev.update(
                    prev.len() - 1,
                    prev.last().push(s@[j as int]),
                ));
                assert(s@.subrange(start as int, j + 1) =~= s@.subrange(start as int, j as int).push(
                    s@[j as int],
                ));
            }
        }
        j += 1;
    }
    assert(w.take(hi - lo) =~= w);
    r.push((start, hi));
    r
}

/// Index ranges in `s` holding the words of `s[lo..hi]`.
pub fn word_ranges(s: &Vec<char>, lo: usize, hi: usize) -> (r: Vec<(usize, usize)>)
    requires
        lo <= hi <= s@.len(),
    ensures
        r@.len() == words(s@.subrange(lo as int, hi as int)).len(),
        forall|i: int|
            0 <= i < r@.len() ==> {
                &&& lo <= (#[trigger] r@[i]).0 <= r@[i].1 <= hi
                &&& s@.subrange(r@[i].0 as int, r@[i].1 as int) == words(
                    s@.subrange(lo as int, hi as int),
                )[i]
            },
{
    let ghost w = s@.subrange(lo as int, hi as int);
    let mut r: Vec<(usize, usize)> = Vec::new();
    let mut start = lo;
    let mut j = lo;
    assert(w.take(0) =~= Seq::<char>::empty());
    while j < hi
        invariant
            lo <= start <= j <= hi <= s@.len(),
            w == s@.subrange(lo as int, hi as int),
            r@.len() == scan_words(w.take(j - lo)).0.len(),
            forall|i: int|
                0 <= i < r@.len() ==> {
                    &&& lo <= (#[trigger] r@[i]).0 <= r@[i].1 <= hi
                    &&& s@.subrange(r@[i].0 as int, r@[i].1 as int) == scan_words(
                        w.take(j - lo),
                    ).0[i]
                },
            s@.subrange(start as int, j as int) == scan_words(w.take(j - lo)).1,
        decreases hi - j,
    {
        let ghost prev = scan_words(w.take(j - lo));
        let ghost next_w = w.take(j - lo + 1);
        assert(next_w.drop_last() =~= w.take(j - lo));
        assert(next_w.last() == s@[j as int]);
        if is_ws_char(s[j]) {
            if start < j {
                r.push((start, j));
            } else {
                assert(prev.1.len() == 0);
            }
            start = j + 1;
            assert(s@.subrange(start as int, j + 1) =~= Seq::<char>::empty());
        } else {
            assert(s@.subrange(start as int, j + 1) =~= s@.subrange(start as int, j as int).push(
                s@[j as int],
            ));
        }
        j += 1;
    }
    assert(w.take(hi - lo) =~= w);
    if start < hi {
        r.push((start, hi));
    }
    r
}

/// Whether `pat` occurs in `s`.
pub fn contains_exec(s: &Vec<char>, pat: &Vec<char>) -> (b: bool)
    ensures
        b == contains(s@, pat@),
{
    if pat.len() > s.len() {
        proof {
            if contains(s@, pat@) {
                let i = choose|i: int|
                    0 <= i && i + pat@.len() <= s@.len() && #[trigger] s@.subrange(i, i + pat@.len())
                        == pat@;
            }
        }
        return false;
    }
    let pl = pat.len();
    let sl = s.len();
    let last = sl - pl;
    let mut i: usize = 0;
    while i < last
        invariant
            pl == pat@.len(),
            sl == s@.len(),
            last == s@.len() - pat@.len(),
            pat@.len() <= s@.len(),
            i <= last,
            forall|k: int| 0 <= k < i ==> #[trigger] s@.subrange(k, k + pat@.len()) != pat@,
        decreases last - i,
    {
        assert(i + pat@.len() < s@.len());
        if slice_eq(s, i, i + pl, pat) {
            assert(s@.subrange(i as int, i + pat@.len()) == pat@);
            return true;
        }
        i += 1;
    }
    if slice_eq(s, last, s.len(), pat) {
        assert(s@.subrange(last as int, last + pat@.len()) == pat@);
        return true;
    }
    proof {
        if contains(s@, pat@) {
            let k = choose|k: int|
                0 <= k && k + pat@.len() <= s@.len() && #[trigger] s@.subrange(k, k + pat@.len())
                    == pat@;
            assert(s@.subrange(k, k + pat@.len()) != pat@);
        }
    }
    false
}

/// Index ranges in `s` holding the lines of `s`.
pub fn line_ranges(s: &Vec<char>) -> (r: Vec<(usize, usize)>)
    ensures
        r@.len() == lines(s@).len(),
        forall|k: int|
            0 <= k < r@.len() ==> {
                &&& 0 <= (#[trigger] r@[k]).0 <= r@[k].1 <= s@.len()
                &&& s@.subrange(r@[k].0 as int, r@[k].1 as int) == lines(s@)[k]
            },
{
    let mut pieces = split_ranges(s, 0, s.len(), '\n');
    assert(s@.subrange(0, s@.len() as int) =~= s@);
    proof {
        lemma_split_on_nonempty(s@, '\n');
    }
    let ghost p = split_on(s@, '\n');
    let last = pieces[pieces.len() - 1];
    assert(s@.subrange(last.0 as int, last.1 as int).len() == last.1 - last.0);
    if last.0 == last.1 {
        pieces.pop();
        assert(lines(s@) =~= p.drop_last());
    }
    pieces
}

/// What `str::parse::<u64>` gives for `s[lo..hi]`.
pub fn parse_u64_slice(s: &Vec<char>, lo: usize, hi: usize) -> (r: Option<u64>)
    requires
        lo <= hi <= s@.len(),
    ensures
        r == parse_u64(s@.subrange(lo as int, hi as int)),
{
    let ghost w = s@.subrange(lo as int, hi as int);
    let mut start = lo;
    if lo < hi && s[lo] == '+' {
        start = lo + 1;
    }
    let ghost d = s@.subrange(start as int, hi as int);
    assert(d =~= (if w.len() > 0 && w[0] == '+' { w.drop_first() } else { w }));
    if start == hi {
        return None;
    }
    let mut acc: u64 = 0;
    let mut i = start;
    while i < hi
        invariant
            lo <= start <= i <= hi <= s@.len(),
            w == s@.subrange(lo as int, hi as int),
            d == s@.subrange(start as int, hi as int),
            d == (if w.len() > 0 && w[0] == '+' { w.drop_first() } else { w }),
            all_digits(d.take(i - start)),
            acc as nat == decimal_value(d.take(i - start)),
        decreases hi - i,
    {
        let c = s[i];
        assert(c == d[i - start]);
        if !('0' <= c && c <= '9') {
            assert(!all_digits(d));
            return None;
        }
        let dv = (c as u32 - '0' as u32) as u64;
        assert(d.take(i - start + 1).drop_last() =~= d.take(i - start));
        assert(d.take(i - start + 1).last() == c);
        match acc.checked_mul(10) {
            None => {
                proof {
                    assert forall|k: int| 0 <= k < i - start + 1 implies is_digit(
                        #[trigger] d.take(i - start + 1)[k],
                    ) by {
                        if k < i - start {
                            assert(d.take(i - start + 1)[k] == d.take(i - start)[k]);
                        }
                    }
                    if all_digits(d) {
                        lemma_decimal_value_prefix_le(d, i - start + 1);
                    }
                }
                return None;
            },
            Some(m) => match m.checked_add(dv) {
                None => {
                    proof {
                        assert forall|k: int| 0 <= k < i - start + 1 implies is_digit(
                            #[trigger] d.take(i - start + 1)[k],
                        ) by {
                            if k < i - start {
                                assert(d.take(i - start + 1)[k] == d.take(i - start)[k]);
                            }
                        }
                        if all_digits(d) {
                            lemma_decimal_value_prefix_le(d, i - start + 1);
                        }
                    }
                    return None;
                },
                Some(v) => {
                    acc = v;
                },
            },
        }
        assert forall|k: int| 0 <= k < i - start + 1 implies is_digit(
            #[trigger] d.take(i - start + 1)[k],
        ) by {
            if k < i - start {
                assert(d.take(i - start + 1)[k] == d.take(i - start)[k]);
            }
        }
        i += 1;
    }
    assert(d.take(hi - start) =~= d);
    Some(acc)
}

/// The ASCII digit for `d`.
fn digit_to_char(d: u64) -> (c: char)
    requires
        d < 10,
    ensures
        c == digit_char(d as nat),
{
    match d {
        0 => '0',
        1 => '1',
        2 => '2',
        3 => '3',
        4 => '4',
        5 => '5',
        6 => '6',
        7 => '7',
        8 => '8',
        _ => '9',
    }
}

/// Appends the decimal representation of `n`.
pub fn push_decimal(out: &mut String, n: u64)
    ensures
        final(out)@ == old(out)@ + decimal(n as nat),
    decreases n,
{
    if n >= 10 {
        push_decimal(out, n / 10);
    }
    push_char(out, digit_to_char(n % 10));
    proof {
        if n >= 10 {
            assert(old(out)@ + decimal((n / 10) as nat) + seq![digit_char((n % 10) as nat)] =~= old(out)@
                + decimal(n as nat));
        } else {
            assert(old(out)@.push(digit_char(n as nat)) =~= old(out)@ + decimal(n as nat));
        }
    }
}

} // verus!
