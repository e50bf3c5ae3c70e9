//! Character-level text operations: ASCII case folding, prefix, suffix and
//! substring tests, Unicode white-space trimming, and the building blocks the
//! rest of the library uses to take strings apart and put them together.
use vstd::prelude::*;

verus! {

broadcast use vstd::string::group_string_axioms;

/// `c` with an ASCII upper-case letter replaced by its lower-case letter.
pub open spec fn ascii_lower(c: char) -> char {
    if 'A' <= c && c <= 'Z' {
        ((c as u32) + 32) as char
    } else {
        c
    }
}

/// `s` with every ASCII upper-case letter replaced by its lower-case letter.
pub open spec fn ascii_folded(s: Seq<char>) -> Seq<char> {
    s.map_values(|c: char| ascii_lower(c))
}

/// The two texts are equal once ASCII letters are compared without regard to case.
pub open spec fn same_ignoring_ascii_case(a: Seq<char>, b: Seq<char>) -> bool {
    ascii_folded(a) == ascii_folded(b)
}

/// ASCII lower-casing keeps text ASCII, and lower-casing twice is
/// lower-casing once.
pub proof fn law_ascii_folding_idempotent(s: Seq<char>)
    ensures
        ascii_folded(ascii_folded(s)) == ascii_folded(s),
        vstd::utf8::is_ascii_chars(s) ==> vstd::utf8::is_ascii_chars(ascii_folded(s)),
{
    assert(ascii_folded(ascii_folded(s)) =~= ascii_folded(s));
}

/// `t` occurs in `s` as a contiguous run of characters.
pub open spec fn has_substring(s: Seq<char>, t: Seq<char>) -> bool {
    exists|i: int| 0 <= i && i + t.len() <= s.len() && #[trigger] s.subrange(i, i + t.len()) == t
}

/// The characters of `s`, in order.
pub fn chars_of(s: &str) -> (v: Vec<char>)
    ensures
        v@ == s@,
{
    let mut v: Vec<char> = Vec::new();
    for c in it: s.chars()
        invariant
            v@ == it.seq().take(it.index() as int),
            it.seq() == s@,
    {
        v.push(c);
    }
    v
}

/// The ASCII lower-case form of one character.
pub fn lower_ascii_char(c: char) -> (r: char)
    ensures
        r == ascii_lower(c),
{
    if 'A' <= c && c <= 'Z' {
        let n: u32 = c as u32;
        ((n + 32) as u8) as char
    } else {
        c
    }
}

/// Whether `a` and `b` are equal when ASCII letters are compared without regard to case.
pub fn eq_ignore_ascii_case(a: &str, b: &str) -> (r: bool)
    ensures
        r == same_ignoring_ascii_case(a@, b@),
{
    let va = chars_of(a);
    let vb = chars_of(b);
    if va.len() != vb.len() {
        assert(ascii_folded(a@).len() != ascii_folded(b@).len());
        return false;
    }
    let mut i: usize = 0;
    while i < va.len()
        invariant
            va@ == a@,
            vb@ == b@,
            va.len() == vb.len(),
            0 <= i <= va.len(),
            forall|j: int| 0 <= j < i ==> ascii_lower(#[trigger] va@[j]) == ascii_lower(vb@[j]),
        decreases va.len() - i,
    {
        if lower_ascii_char(va[i]) != lower_ascii_char(vb[i]) {
            assert(ascii_folded(a@)[i as int] != ascii_folded(b@)[i as int]);
            return false;
        }
        i += 1;
    }
    assert(ascii_folded(a@) =~= ascii_folded(b@));
    true
}

/// Whether `a` and `b` hold the same characters.
pub fn str_eq(a: &str, b: &str) -> (r: bool)
    ensures
        r == (a@ == b@),
{
    let va = chars_of(a);
    let vb = chars_of(b);
    if va.len() != vb.len() {
        return false;
    }
    let mut i: usize = 0;
    while i < va.len()
        invariant
            va@ == a@,
            vb@ == b@,
            va.len() == vb.len(),
            0 <= i <= va.len(),
            forall|j: int| 0 <= j < i ==> #[trigger] va@[j] == vb@[j],
        decreases va.len() - i,
    {
        if va[i] != vb[i] {
            return false;
        }
        i += 1;
    }
    assert(a@ =~= b@);
    true
}

/// The character views of a sequence of string slices.
pub open spec fn str_views(v: Seq<&str>) -> Seq<Seq<char>> {
    v.map_values(|s: &str| s@)
}

/// The character views of a sequence of strings.
pub open spec fn string_views(v: Seq<String>) -> Seq<Seq<char>> {
    v.map_values(|s: String| s@)
}

/// `a` sorts before `b` in the order `Ord` gives `String`: the first
/// differing character decides, and a proper prefix sorts first. (Comparing
/// UTF-8 bytes and comparing code points give the same order.)
pub open spec fn text_less(a: Seq<char>, b: Seq<char>) -> bool
    decreases a.len(),
{
    if b.len() == 0 {
        false
    } else if a.len() == 0 {
        true
    } else if a[0] != b[0] {
        a[0] < b[0]
    } else {
        text_less(a.drop_first(), b.drop_first())
    }
}

/// No text sorts before itself.
pub proof fn lemma_text_less_irreflexive(a: Seq<char>)
    ensures
        !text_less(a, a),
    decreases a.len(),
{
    if a.len() > 0 {
        lemma_text_less_irreflexive(a.drop_first());
    }
}

/// Of two different texts, exactly one sorts before the other.
pub proof fn lemma_text_less_total(a: Seq<char>, b: Seq<char>)
    ensures
        a != b ==> (text_less(a, b) || text_less(b, a)),
        !(text_less(a, b) && text_less(b, a)),
    decreases a.len(),
{
    if a.len() > 0 && b.len() > 0 {
        lemma_text_less_total(a.drop_first(), b.drop_first());
        if a[0] == b[0] && a.drop_first() == b.drop_first() {
            assert(a =~= seq![a[0]] + a.drop_first());
            assert(b =~= seq![b[0]] + b.drop_first());
        }
    } else if a.len() == 0 && b.len() == 0 {
        assert(a =~= b);
    }
}

/// The order of texts is transitive.
pub proof fn lemma_text_less_transitive(a: Seq<char>, b: Seq<char>, c: Seq<char>)
    requires
        text_less(a, b),
        text_less(b, c),
    ensures
        text_less(a, c),
    decreases a.len(),
{
    if a.len() > 0 && b.len() > 0 && c.len() > 0 && a[0] == b[0] && b[0] == c[0] {
        lemma_text_less_transitive(a.drop_first(), b.drop_first(), c.drop_first());
    }
}

proof fn lemma_text_less_skip(a: Seq<char>, b: Seq<char>, i: int)
    requires
        0 <= i <= a.len(),
        i <= b.len(),
        a.take(i) == b.take(i),
    ensures
        text_less(a, b) == text_less(a.skip(i), b.skip(i)),
    decreases i,
{
    if i > 0 {
        assert(a[0] == a.take(i)[0]);
        assert(b[0] == b.take(i)[0]);
        assert(a.drop_first().take(i - 1) =~= a.take(i).drop_first());
        assert(b.drop_first().take(i - 1) =~= b.take(i).drop_first());
        lemma_text_less_skip(a.drop_first(), b.drop_first(), i - 1);
        assert(a.drop_first().skip(i - 1) =~= a.skip(i));
        assert(b.drop_first().skip(i - 1) =~= b.skip(i));
    } else {
        assert(a.skip(0) =~= a);
        assert(b.skip(0) =~= b);
    }
}

/// Whether `a` sorts before `b` (as `a < b` on `String`s decides).
pub fn text_lt(a: &str, b: &str) -> (r: bool)
    ensures
        r == text_less(a@, b@),
{
    let va = chars_of(a);
    let vb = chars_of(b);
    let mut i: usize = 0;
    while i < va.len() && i < vb.len() && va[i] == vb[i]
        invariant
            va@ == a@,
            vb@ == b@,
            0 <= i <= va.len(),
            i <= vb.len(),
            a@.take(i as int) == b@.take(i as int),
        decreases va.len() - i,
    {
        assert(a@.take(i + 1) =~= a@.take(i as int).push(a@[i as int]));
        assert(b@.take(i + 1) =~= b@.take(i as int).push(b@[i as int]));
        i += 1;
    }
    proof {
        lemma_text_less_skip(a@, b@, i as int);
    }
    let ghost sa = a@.skip(i as int);
    let ghost sb = b@.skip(i as int);
    if i == vb.len() {
        assert(sb.len() == 0);
        false
    } else if i == va.len() {
        assert(sa.len() == 0 && sb.len() > 0);
        true
    } else {
        assert(sa[0] == va@[i as int] && sb[0] == vb@[i as int]);
        va[i] < vb[i]
    }
}

/// Whether `p` is a prefix of `s`.
pub fn starts_with(s: &str, p: &str) -> (r: bool)
    ensures
        r == p@.is_prefix_of(s@),
{
    let vs = chars_of(s);
    let vp = chars_of(p);
    if vp.len() > vs.len() {
        return false;
    }
    let mut i: usize = 0;
    while i < vp.len()
        invariant
            vs@ == s@,
            vp@ == p@,
            vp.len() <= vs.len(),
            0 <= i <= vp.len(),
            forall|j: int| 0 <= j < i ==> #[trigger] vs@[j] == vp@[j],
        decreases vp.len() - i,
    {
        if vs[i] != vp[i] {
            assert(s@.take(p@.len() as int)[i as int] != p@[i as int]);
            return false;
        }
        i += 1;
    }
    assert(s@.take(p@.len() as int) =~= p@);
    true
}

/// Whether `p` is a suffix of `s`.
pub fn ends_with(s: &str, p: &str) -> (r: bool)
    ensures
        r == p@.is_suffix_of(s@),
{
    let vs = chars_of(s);
    let vp = chars_of(p);
    if vp.len() > vs.len() {
        return false;
    }
    let off: usize = vs.len() - vp.len();
    let mut i: usize = 0;
    while i < vp.len()
        invariant
            vs@ == s@,
            vp@ == p@,
            off == vs.len() - vp.len(),
            0 <= i <= vp.len(),
            forall|j: int| 0 <= j < i ==> #[trigger] vs@[off + j] == vp@[j],
        decreases vp.len() - i,
    {
        if vs[off + i] != vp[i] {
            assert(s@.skip(off as int)[i as int] != p@[i as int]);
            return false;
        }
        i += 1;
    }
    assert forall|k: int| 0 <= k < p@.len() implies #[trigger] s@.skip(off as int)[k] == p@[k] by {
        assert(vs@[off + k] == vp@[k]);
    }
    assert(s@.skip(off as int) =~= p@);
    true
}

/// Whether `t` occurs in `s` as a contiguous run of characters.
pub fn contains(s: &str, t: &str) -> (r: bool)
    ensures
        r == has_substring(s@, t@),
{
    let vs = chars_of(s);
    let vt = chars_of(t);
    if vt.len() > vs.len() {
        assert forall|i: int| 0 <= i && i + t@.len() <= s@.len() implies #[trigger] s@.subrange(i, i + t@.len()) != t@ by {}
        return false;
    }
    let last: usize = vs.len() - vt.len();
    let mut i: usize = 0;
    while i <= last
        invariant
            vs@ == s@,
            vt@ == t@,
            last == vs.len() - vt.len(),
            0 <= i <= last + 1,
            forall|k: int| 0 <= k < i ==> #[trigger] s@.subrange(k, k + t@.len()) != t@,
        decreases last + 1 - i,
    {
        let mut j: usize = 0;
        let mut same = true;
        while j < vt.len()
            invariant
                vs@ == s@,
                vt@ == t@,
                last == vs.len() - vt.len(),
                i <= last,
                0 <= j <= vt.len(),
                same == (forall|m: int| 0 <= m < j ==> #[trigger] vs@[i + m] == vt@[m]),
            decreases vt.len() - j,
        {
            if vs[i + j] != vt[j] {
                same = false;
            }
            j += 1;
        }
        if same {
            assert forall|m: int| 0 <= m < t@.len() implies #[trigger] s@.subrange(i as int, i + t@.len())[m] == t@[m] by {
                assert(vs@[i + m] == vt@[m]);
            }
            assert(s@.subrange(i as int, i + t@.len()) =~= t@);
            return true;
        }
        assert(s@.subrange(i as int, i + t@.len()) != t@) by {
            let m = choose|m: int| 0 <= m < vt.len() && vs@[i + m] != vt@[m];
            assert(s@.subrange(i as int, i + t@.len())[m] != t@[m]);
        }
        i += 1;
    }
    false
}

/// Unicode's `White_Space` property: the characters that `str::trim` and
/// `str::split_whitespace` treat as white space.
pub open spec fn is_white_space(c: char) -> bool {
    ||| ('\u{9}' <= c && c <= '\u{d}')
    ||| c == ' '
    ||| c == '\u{85}'
    ||| c == '\u{a0}'
    ||| c == '\u{1680}'
    ||| ('\u{2000}' <= c && c <= '\u{200a}')
    ||| c == '\u{2028}'
    ||| c == '\u{2029}'
    ||| c == '\u{202f}'
    ||| c == '\u{205f}'
    ||| c == '\u{3000}'
}

/// `s` without its leading white space.
pub open spec fn trim_start_seq(s: Seq<char>) -> Seq<char>
    decreases s.len(),
{
    if s.len() > 0 && is_white_space(s[0]) {
        trim_start_seq(s.drop_first())
    } else {
        s
    }
}

/// `s` without its trailing white space.
pub open spec fn trim_end_seq(s: Seq<char>) -> Seq<char>
    decreases s.len(),
{
    if s.len() > 0 && is_white_space(s.last()) {
        trim_end_seq(s.drop_last())
    } else {
        s
    }
}

/// `s` without its leading and trailing white space.
pub open spec fn trimmed(s: Seq<char>) -> Seq<char> {
    trim_end_seq(trim_start_seq(s))
}

proof fn lemma_trim_start_shape(s: Seq<char>)
    ensures
        trim_start_seq(s).len() > 0 ==> !is_white_space(trim_start_seq(s)[0]),
        trim_start_seq(s).len() <= s.len(),
    decreases s.len(),
{
    if s.len() > 0 && is_white_space(s[0]) {
        lemma_trim_start_shape(s.drop_first());
    }
}

proof fn lemma_trim_end_shape(s: Seq<char>)
    ensures
        trim_end_seq(s) == s.take(trim_end_seq(s).len() as int),
        trim_end_seq(s).len() <= s.len(),
        trim_end_seq(s).len() > 0 ==> !is_white_space(trim_end_seq(s).last()),
    decreases s.len(),
{
    if s.len() > 0 && is_white_space(s.last()) {
        lemma_trim_end_shape(s.drop_last());
        let t = trim_end_seq(s.drop_last());
        assert(s.drop_last().take(t.len() as int) =~= s.take(t.len() as int));
    } else {
        assert(s.take(s.len() as int) =~= s);
    }
}

/// Trimming is idempotent: trimmed text has no white space left to trim.
pub proof fn law_trim_idempotent(s: Seq<char>)
    ensures
        trimmed(trimmed(s)) == trimmed(s),
{
    let a = trim_start_seq(s);
    let t = trim_end_seq(a);
    lemma_trim_start_shape(s);
    lemma_trim_end_shape(a);
    if t.len() > 0 {
        assert(t[0] == a[0]);
    }
    assert(trim_start_seq(t) == t);
    assert(trim_end_seq(t) == t);
}

/// Whether `c` is white space.
pub fn white_space(c: char) -> (r: bool)
    ensures
        r == is_white_space(c),
{
    ('\u{9}' <= c && c <= '\u{d}') || c == ' ' || c == '\u{85}' || c == '\u{a0}' || c == '\u{1680}'
        || ('\u{2000}' <= c && c <= '\u{200a}') || c == '\u{2028}' || c == '\u{2029}'
        || c == '\u{202f}' || c == '\u{205f}' || c == '\u{3000}'
}

proof fn lemma_trim_start_skip(s: Seq<char>, k: int)
    requires
        0 <= k <= s.len(),
        forall|j: int| 0 <= j < k ==> is_white_space(#[trigger] s[j]),
        k == s.len() || !is_white_space(s[k]),
    ensures
        trim_start_seq(s) == s.skip(k),
    decreases k,
{
    if k == 0 {
        assert(s.skip(0) =~= s);
    } else {
        let t = s.drop_first();
        assert forall|j: int| 0 <= j < k - 1 implies is_white_space(#[trigger] t[j]) by {
            assert(t[j] == s[j + 1]);
        }
        lemma_trim_start_skip(t, k - 1);
        assert(t.skip(k - 1) =~= s.skip(k));
    }
}

proof fn lemma_trim_end_take(s: Seq<char>, k: int)
    requires
        0 <= k <= s.len(),
        forall|j: int| k <= j < s.len() ==> is_white_space(#[trigger] s[j]),
        k == 0 || !is_white_space(s[k - 1]),
    ensures
        trim_end_seq(s) == s.take(k),
    decreases s.len() - k,
{
    if k == s.len() {
        assert(s.take(k) =~= s);
    } else {
        let t = s.drop_last();
        assert forall|j: int| k <= j < t.len() implies is_white_space(#[trigger] t[j]) by {
            assert(t[j] == s[j]);
        }
        lemma_trim_end_take(t, k);
        assert(t.take(k) =~= s.take(k));
    }
}

/// `s` without its leading and trailing white space (what `str::trim` returns).
pub fn trim(s: &str) -> (r: String)
    ensures
        r@ == trimmed(s@),
{
    let v = chars_of(s);
    let n = v.len();
    let mut lo: usize = 0;
    while lo < n && white_space(v[lo])
        invariant
            v@ == s@,
            n == v.len(),
            0 <= lo <= n,
            forall|j: int| 0 <= j < lo ==> is_white_space(#[trigger] s@[j]),
        decreases n - lo,
    {
        lo += 1;
    }
    proof {
        lemma_trim_start_skip(s@, lo as int);
    }
    let mut hi: usize = n;
    while hi > lo && white_space(v[hi - 1])
        invariant
            v@ == s@,
            n == v.len(),
            0 <= lo <= hi <= n,
            forall|j: int| hi <= j < n ==> is_white_space(#[trigger] s@[j]),
        decreases hi,
    {
        hi -= 1;
    }
    proof {
        let rest = s@.skip(lo as int);
        assert forall|j: int| hi - lo <= j < rest.len() implies is_white_space(#[trigger] rest[j]) by {
            assert(rest[j] == s@[j + lo]);
        }
        if hi > lo {
            assert(rest[hi - lo - 1] == s@[hi - 1]);
        }
        lemma_trim_end_take(rest, hi - lo);
        assert(rest.take(hi - lo) =~= s@.subrange(lo as int, hi as int));
    }
    s.substring_char(lo, hi).to_owned()
}

/// The pieces of `s` cut after each `\n`, each keeping its `\n` (what
/// `str::split_inclusive('\n')` yields).
pub open spec fn inclusive_pieces(s: Seq<char>) -> Seq<Seq<char>>
    decreases s.len(),
{
    if s.len() == 0 {
        seq![]
    } else {
        let prev = inclusive_pieces(s.drop_last());
        if prev.len() == 0 || prev.last().last() == '\n' {
            prev.push(seq![s.last()])
        } else {
            prev.update(prev.len() - 1, prev.last().push(s.last()))
        }
    }
}

/// A piece without its line ending: a final `\n`, and then a `\r` before it.
pub open spec fn line_of_piece(p: Seq<char>) -> Seq<char> {
    if p.len() > 0 && p.last() == '\n' {
        let q = p.drop_last();
        if q.len() > 0 && q.last() == '\r' {
            q.drop_last()
        } else {
            q
        }
    } else {
        p
    }
}

/// The lines of `s`, as `str::lines` yields them: split at `\n` or `\r\n`,
/// without the line endings, and with no empty line after a final ending.
pub open spec fn text_lines(s: Seq<char>) -> Seq<Seq<char>> {
    inclusive_pieces(s).map_values(|p: Seq<char>| line_of_piece(p))
}

proof fn lemma_pieces_nonempty(s: Seq<char>)
    ensures
        forall|k: int| 0 <= k < inclusive_pieces(s).len() ==> #[trigger] inclusive_pieces(s)[k].len() > 0,
        s.len() > 0 ==> inclusive_pieces(s).len() > 0,
        s.len() == 0 ==> inclusive_pieces(s).len() == 0,
        forall|k: int| 0 <= k < inclusive_pieces(s).len() - 1 ==> #[trigger] inclusive_pieces(s)[k].last() == '\n',
        s.len() > 0 && inclusive_pieces(s).len() > 0 ==> inclusive_pieces(s).last().last() == s.last(),
    decreases s.len(),
{
    if s.len() > 0 {
        lemma_pieces_nonempty(s.drop_last());
    }
}

/// The line ending at position `hi` (exclusive) of a text whose current line
/// started at `lo`.
fn piece_line(v: &Vec<char>, lo: usize, hi: usize) -> (r: String)
    requires
        lo <= hi <= v@.len(),
    ensures
        r@ == line_of_piece(v@.subrange(lo as int, hi as int)),
{
    let mut end = hi;
    if end > lo && v[end - 1] == '\n' {
        end -= 1;
        if end > lo && v[end - 1] == '\r' {
            end -= 1;
        }
    }
    let r = collect_range(v, lo, end);
    let ghost p = v@.subrange(lo as int, hi as int);
    assert(v@.subrange(lo as int, end as int) =~= line_of_piece(p)) by {
        if p.len() > 0 && p.last() == '\n' {
            let q = p.drop_last();
            assert(q =~= v@.subrange(lo as int, hi - 1));
            if q.len() > 0 && q.last() == '\r' {
                assert(q.drop_last() =~= v@.subrange(lo as int, hi - 2));
            }
        }
    }
    r
}

/// The characters of `v` from `lo` up to `hi`, as a string.
pub fn collect_range(v: &Vec<char>, lo: usize, hi: usize) -> (r: String)
    requires
        lo <= hi <= v@.len(),
    ensures
        r@ == v@.subrange(lo as int, hi as int),
{
    let mut r = String::new();
    let mut k = lo;
    while k < hi
        invariant
            lo <= k <= hi <= v@.len(),
            r@ == v@.subrange(lo as int, k as int),
        decreases hi - k,
    {
        push_char(&mut r, v[k]);
        assert(v@.subrange(lo as int, k + 1) =~= v@.subrange(lo as int, k as int).push(v@[k as int]));
        k += 1;
    }
    r
}

/// The characters of `s` up to its first white space.
pub open spec fn take_until_white_space(s: Seq<char>) -> Seq<char>
    decreases s.len(),
{
    if s.len() == 0 || is_white_space(s[0]) {
        seq![]
    } else {
        seq![s[0]] + take_until_white_space(s.drop_first())
    }
}

/// The first white-space-separated word of `s`, if it has one (what
/// `str::split_whitespace().next()` returns).
pub open spec fn first_word(s: Seq<char>) -> Option<Seq<char>> {
    let t = trim_start_seq(s);
    if t.len() == 0 {
        None
    } else {
        Some(take_until_white_space(t))
    }
}

proof fn lemma_take_until_white_space(s: Seq<char>, k: int)
    requires
        0 <= k <= s.len(),
        forall|j: int| 0 <= j < k ==> !is_white_space(#[trigger] s[j]),
        k == s.len() || is_white_space(s[k]),
    ensures
        take_until_white_space(s) == s.take(k),
    decreases k,
{
    if k == 0 {
        assert(s.take(0) =~= Seq::<char>::empty());
    } else {
        let t = s.drop_first();
        assert forall|j: int| 0 <= j < k - 1 implies !is_white_space(#[trigger] t[j]) by {
            assert(t[j] == s[j + 1]);
        }
        lemma_take_until_white_space(t, k - 1);
        assert(seq![s[0]] + t.take(k - 1) =~= s.take(k));
    }
}

/// The first white-space-separated word of `s`, if it has one.
pub fn first_word_of(s: &str) -> (r: Option<String>)
    ensures
        match r {
            Some(w) => first_word(s@) == Some(w@),
            None => first_word(s@) is None,
        },
{
    let v = chars_of(s);
    let n = v.len();
    let mut lo: usize = 0;
    while lo < n && white_space(v[lo])
        invariant
            v@ == s@,
            n == v.len(),
            0 <= lo <= n,
            forall|j: int| 0 <= j < lo ==> is_white_space(#[trigger] s@[j]),
        decreases n - lo,
    {
        lo += 1;
    }
    proof {
        lemma_trim_start_skip(s@, lo as int);
    }
    if lo == n {
        return None;
    }
    let mut hi: usize = lo;
    while hi < n && !white_space(v[hi])
        invariant
            v@ == s@,
            n == v.len(),
            lo <= hi <= n,
            forall|j: int| lo <= j < hi ==> !is_white_space(#[trigger] s@[j]),
        decreases n - hi,
    {
        hi += 1;
    }
    proof {
        let t = s@.skip(lo as int);
        assert forall|j: int| 0 <= j < hi - lo implies !is_white_space(#[trigger] t[j]) by {
            assert(t[j] == s@[j + lo]);
        }
        if hi < n {
            assert(t[hi - lo] == s@[hi as int]);
        }
        lemma_take_until_white_space(t, hi - lo);
        assert(t.take(hi - lo) =~= v@.subrange(lo as int, hi as int));
    }
    Some(collect_range(&v, lo, hi))
}

/// `s` with `p` removed from its front as many times as it occurs there
/// (what `str::trim_start_matches` does with a non-empty text pattern).
pub open spec fn strip_repeated(s: Seq<char>, p: Seq<char>) -> Seq<char>
    decreases s.len(),
{
    if p.len() > 0 && p.is_prefix_of(s) {
        strip_repeated(s.skip(p.len() as int), p)
    } else {
        s
    }
}

/// `s` with the non-empty pattern `p` removed from its front as many times as
/// it occurs there.
pub fn strip_repeated_prefix(s: &str, p: &str) -> (r: String)
    requires
        p@.len() > 0,
    ensures
        r@ == strip_repeated(s@, p@),
{
    let v = chars_of(s);
    let w = chars_of(p);
    let n = v.len();
    let m = w.len();
    let mut i: usize = 0;
    assert(s@.skip(0) =~= s@);
    loop
        invariant
            v@ == s@,
            w@ == p@,
            n == v.len(),
            m == w.len(),
            m > 0,
            0 <= i <= n,
            strip_repeated(s@, p@) == strip_repeated(s@.skip(i as int), p@),
        ensures
            0 <= i <= n,
            strip_repeated(s@, p@) == strip_repeated(s@.skip(i as int), p@),
            !p@.is_prefix_of(s@.skip(i as int)),
        decreases n - i,
    {
        if n - i < m {
            assert(s@.skip(i as int).len() < p@.len());
            break;
        }
        let mut j: usize = 0;
        let mut same = true;
        while j < m
            invariant
                v@ == s@,
                w@ == p@,
                n == v.len(),
                m == w.len(),
                i + m <= n,
                0 <= j <= m,
                same == (forall|q: int| 0 <= q < j ==> #[trigger] v@[i + q] == w@[q]),
            decreases m - j,
        {
            if v[i + j] != w[j] {
                same = false;
            }
            j += 1;
        }
        let ghost rest = s@.skip(i as int);
        if !same {
            assert(!p@.is_prefix_of(rest)) by {
                let q = choose|q: int| 0 <= q < m && v@[i + q] != w@[q];
                assert(rest[q] == v@[i + q]);
                if p@.is_prefix_of(rest) {
                    assert(rest.subrange(0, m as int)[q] == p@[q]);
                }
            }
            break;
        }
        assert(p@.is_prefix_of(rest)) by {
            assert forall|q: int| 0 <= q < m implies #[trigger] rest.subrange(0, m as int)[q] == p@[q] by {
                assert(v@[i + q] == w@[q]);
            }
            assert(rest.subrange(0, m as int) =~= p@);
        }
        assert(rest.skip(m as int) =~= s@.skip(i + m));
        i += m;
    }
    let ghost rest = s@.skip(i as int);
    assert(rest =~= v@.subrange(i as int, n as int));
    collect_range(&v, i, n)
}

/// Calls `String::push`, which appends one character.
#[verifier::external_body]
fn push_char(s: &mut String, c: char)
    ensures
        final(s)@ == old(s)@.push(c),
{
    s.push(c);
}

/// The lines of `s` (what `str::lines` yields).
pub fn lines_of(s: &str) -> (r: Vec<String>)
    ensures
        string_views(r@) == text_lines(s@),
{
    let v = chars_of(s);
    let n = v.len();
    let mut r: Vec<String> = Vec::new();
    let mut lo: usize = 0;
    let mut i: usize = 0;
    while i < n
        invariant
            v@ == s@,
            n == v.len(),
            0 <= lo <= i <= n,
            lo == i || v@[i - 1] != '\n',
            lo == 0 || v@[lo - 1] == '\n',
            inclusive_pieces(s@.take(i as int)) == (if lo == i {
                inclusive_pieces(s@.take(lo as int))
            } else {
                inclusive_pieces(s@.take(lo as int)).push(s@.subrange(lo as int, i as int))
            }),
            string_views(r@) == inclusive_pieces(s@.take(lo as int)).map_values(
                |p: Seq<char>| line_of_piece(p),
            ),
        decreases n - i,
    {
        let ghost pre = s@.take(i as int);
        let ghost next = s@.take(i + 1);
        assert(next.drop_last() =~= pre);
        assert(next.last() == v@[i as int]);
        proof {
            lemma_pieces_nonempty(pre);
            lemma_pieces_nonempty(s@.take(lo as int));
        }
        if lo == i {
            assert(inclusive_pieces(pre).len() == 0 || inclusive_pieces(pre).last().last() == '\n') by {
                if i > 0 {
                    assert(pre.last() == v@[i - 1]);
                }
            }
            assert(inclusive_pieces(pre) == inclusive_pieces(s@.take(lo as int)));
            assert(inclusive_pieces(next) == inclusive_pieces(pre).push(seq![next.last()]));
            assert(seq![next.last()] =~= s@.subrange(lo as int, i + 1));
            assert(inclusive_pieces(next) =~= inclusive_pieces(s@.take(lo as int)).push(s@.subrange(lo as int, i + 1)));
        } else {
            let ghost base = inclusive_pieces(s@.take(lo as int));
            let ghost cur = s@.subrange(lo as int, i as int);
            assert(inclusive_pieces(pre) == base.push(cur));
            assert(inclusive_pieces(pre).last() == cur);
            assert(cur.last() == v@[i - 1]);
            assert(inclusive_pieces(pre).len() > 0 && inclusive_pieces(pre).last().last() != '\n');
            assert(inclusive_pieces(next) == inclusive_pieces(pre).update(
                inclusive_pieces(pre).len() - 1,
                cur.push(v@[i as int]),
            ));
            assert(cur.push(v@[i as int]) =~= s@.subrange(lo as int, i + 1));
            assert(inclusive_pieces(next) =~= base.push(s@.subrange(lo as int, i + 1)));
        }
        if v[i] == '\n' {
            let line = piece_line(&v, lo, i + 1);
            let ghost before = r@;
            r.push(line);
            proof {
                let ps = inclusive_pieces(s@.take(lo as int));
                let x = s@.subrange(lo as int, i + 1);
                assert(string_views(r@) =~= string_views(before).push(line@));
                assert(ps.push(x).map_values(|p: Seq<char>| line_of_piece(p)) =~= ps.map_values(
                    |p: Seq<char>| line_of_piece(p),
                ).push(line_of_piece(x)));
            }
            lo = i + 1;
            assert(inclusive_pieces(s@.take(lo as int)) == inclusive_pieces(next));
        }
        i += 1;
    }
    if lo < n {
        let line = piece_line(&v, lo, n);
        let ghost before = r@;
        r.push(line);
        proof {
            let ps = inclusive_pieces(s@.take(lo as int));
            let x = s@.subrange(lo as int, n as int);
            assert(string_views(r@) =~= string_views(before).push(line@));
            assert(ps.push(x).map_values(|p: Seq<char>| line_of_piece(p)) =~= ps.map_values(
                |p: Seq<char>| line_of_piece(p),
            ).push(line_of_piece(x)));
        }
    }
    assert(s@.take(n as int) =~= s@);
    r
}

/// The Unicode lower-case form of a text, as `str::to_lowercase` returns it.
pub uninterp spec fn unicode_lowercase(s: Seq<char>) -> Seq<char>;

/// Calls `str::to_lowercase`. The contract claims that the result is a
/// function of the argument's characters alone, and that on ASCII text it is
/// ASCII lower-casing (in the Unicode Character Database the only lower-case
/// mappings of ASCII characters are `A`..`Z` to `a`..`z`). What it does to
/// other characters (Unicode's case-mapping tables) is left unsaid.
#[verifier::external_body]
pub(crate) fn to_lowercase(s: &str) -> (r: String)
    ensures
        r@ == unicode_lowercase(s@),
        vstd::utf8::is_ascii_chars(s@) ==> r@ == ascii_folded(s@),
{
    s.to_lowercase()
}

} // verus!
