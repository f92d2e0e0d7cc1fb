//! Character-level text operations over `Seq<char>` models of strings.
//!
//! Every executable function here works on the characters of a string and
//! is proved against a spec function that says what it computes.

use vstd::prelude::*;
use vstd::string::*;

verus! {

// ---------------------------------------------------------------------------
// Models
// ---------------------------------------------------------------------------

/// The Unicode `White_Space` property, which `char::is_whitespace` and
/// `str::trim` go by.
pub open spec fn is_white_space(c: char) -> bool {
    let n = c as u32;
    ||| 0x09 <= n <= 0x0d
    ||| n == 0x20
    ||| n == 0x85
    ||| n == 0xa0
    ||| n == 0x1680
    ||| 0x2000 <= n <= 0x200a
    ||| n == 0x2028
    ||| n == 0x2029
    ||| n == 0x202f
    ||| n == 0x205f
    ||| n == 0x3000
}

/// `s` without its leading white space.
pub open spec fn trim_start(s: Seq<char>) -> Seq<char>
    decreases s.len(),
{
    if s.len() > 0 && is_white_space(s[0]) {
        trim_start(s.drop_first())
    } else {
        s
    }
}

/// `s` without its trailing white space.
pub open spec fn trim_end(s: Seq<char>) -> Seq<char>
    decreases s.len(),
{
    if s.len() > 0 && is_white_space(s.last()) {
        trim_end(s.drop_last())
    } else {
        s
    }
}

/// `s` without leading and trailing white space (`str::trim`).
pub open spec fn trim(s: Seq<char>) -> Seq<char> {
    trim_end(trim_start(s))
}

/// `s` without any trailing run of `c` (`str::trim_end_matches` with a char).
pub open spec fn trim_end_char(s: Seq<char>, c: char) -> Seq<char>
    decreases s.len(),
{
    if s.len() > 0 && s.last() == c {
        trim_end_char(s.drop_last(), c)
    } else {
        s
    }
}

/// The pieces of `s` between occurrences of `sep` (`str::split` with a char):
/// one more piece than there are separators, empty pieces included.
pub open spec fn split(s: Seq<char>, sep: char) -> Seq<Seq<char>>
    decreases s.len(),
{
    if s.len() == 0 {
        seq![Seq::<char>::empty()]
    } else {
        let pieces = split(s.drop_last(), sep);
        if s.last() == sep {
            pieces.push(Seq::<char>::empty())
        } else {
            pieces.update(pieces.len() - 1, pieces.last().push(s.last()))
        }
    }
}

/// Whether `s` ends with `suffix`.
pub open spec fn has_suffix(s: Seq<char>, suffix: Seq<char>) -> bool {
    suffix.len() <= s.len() && s.skip(s.len() - suffix.len()) == suffix
}

/// `s` without `suffix` where it ends with it, else `s`
/// (`s.strip_suffix(suffix).unwrap_or(s)`).
pub open spec fn strip_suffix_or_self(s: Seq<char>, suffix: Seq<char>) -> Seq<char> {
    if has_suffix(s, suffix) {
        s.take(s.len() - suffix.len())
    } else {
        s
    }
}

/// What follows the last occurrence of `a` or `b` in `s`, or all of `s`
/// when neither occurs (the first item of `s.rsplit([a, b])`).
pub open spec fn after_last_of(s: Seq<char>, a: char, b: char) -> Seq<char>
    decreases s.len(),
{
    if s.len() == 0 {
        s
    } else if s.last() == a || s.last() == b {
        Seq::<char>::empty()
    } else {
        after_last_of(s.drop_last(), a, b).push(s.last())
    }
}

/// `s` with every `c` replaced by `r` (`str::replace` with a char pattern).
pub open spec fn replace_char(s: Seq<char>, c: char, r: Seq<char>) -> Seq<char>
    decreases s.len(),
{
    if s.len() == 0 {
        s
    } else {
        replace_char(s.drop_last(), c, r) + if s.last() == c {
            r
        } else {
            seq![s.last()]
        }
    }
}

/// The decimal digit for `d < 10`.
pub open spec fn digit_char(d: nat) -> char {
    if d == 0 {
        '0'
    } else if d == 1 {
        '1'
    } else if d == 2 {
        '2'
    } else if d == 3 {
        '3'
    } else if d == 4 {
        '4'
    } else if d == 5 {
        '5'
    } else if d == 6 {
        '6'
    } else if d == 7 {
        '7'
    } else if d == 8 {
        '8'
    } else {
        '9'
    }
}

/// The decimal notation of `n`, as `format!("{n}")` writes it.
pub open spec fn decimal(n: nat) -> Seq<char>
    decreases n,
{
    if n < 10 {
        seq![digit_char(n)]
    } else {
        decimal(n / 10).push(digit_char(n % 10))
    }
}

/// `k` spaces.
pub open spec fn spaces(k: nat) -> Seq<char> {
    Seq::new(k, |i: int| ' ')
}

/// `s` padded on the right with spaces to `width` characters
/// (`format!("{s:<width$}")`).
pub open spec fn pad_right(s: Seq<char>, width: nat) -> Seq<char> {
    if s.len() < width {
        s + spaces((width - s.len()) as nat)
    } else {
        s
    }
}

/// Lexicographic order by code point, the order of `String`'s `Ord`
/// (UTF-8 byte order and code point order agree).
pub open spec fn lex_le(a: Seq<char>, b: Seq<char>) -> bool
    decreases a.len(),
{
    if a.len() == 0 {
        true
    } else if b.len() == 0 {
        false
    } else if a[0] != b[0] {
        (a[0] as u32) < (b[0] as u32)
    } else {
        lex_le(a.drop_first(), b.drop_first())
    }
}

/// The views of a sequence of character vectors.
pub open spec fn views(v: Seq<Vec<char>>) -> Seq<Seq<char>> {
    v.map_values(|p: Vec<char>| p@)
}

/// The views of a sequence of strings.
pub open spec fn string_views(v: Seq<String>) -> Seq<Seq<char>> {
    v.map_values(|p: String| p@)
}

/// The index of the first occurrence of `x` in `s`.
pub open spec fn first_index_of<A>(s: Seq<A>, x: A) -> Option<int>
    decreases s.len(),
{
    if s.len() == 0 {
        None
    } else if s[0] == x {
        Some(0)
    } else {
        match first_index_of(s.drop_first(), x) {
            Some(i) => Some(i + 1),
            None => None,
        }
    }
}

// ---------------------------------------------------------------------------
// Lemmas

/// What [`first_index_of`] finds.
pub proof fn lemma_first_index_of<A>(s: Seq<A>, x: A)
    ensures
        first_index_of(s, x) matches Some(i) ==> 0 <= i < s.len() && s[i] == x && forall|k: int|
            0 <= k < i ==> #[trigger] s[k] != x,
        first_index_of(s, x) is None ==> forall|k: int| 0 <= k < s.len() ==> #[trigger] s[k] != x,
    decreases s.len(),
{
    if s.len() > 0 {
        lemma_first_index_of(s.drop_first(), x);
        let t = s.drop_first();
        assert forall|k: int| 1 <= k < s.len() implies s[k] == #[trigger] t[k - 1] by {}
        if s[0] != x {
            if first_index_of(s, x) is None {
                assert forall|k: int| 0 <= k < s.len() implies #[trigger] s[k] != x by {
                    if k > 0 {
                        assert(s[k] == t[k - 1]);
                    }
                }
            } else {
                let i = first_index_of(s, x)->0;
                assert forall|k: int| 0 <= k < i implies #[trigger] s[k] != x by {
                    if k > 0 {
                        assert(s[k] == t[k - 1]);
                    }
                }
            }
        }
    }
}

/// The first index holding `x` is the first index that [`first_index_of`]
/// finds.
pub proof fn lemma_first_index_of_at<A>(s: Seq<A>, x: A, i: int)
    requires
        0 <= i < s.len(),
        s[i] == x,
        forall|k: int| 0 <= k < i ==> #[trigger] s[k] != x,
    ensures
        first_index_of(s, x) == Some(i),
{
    lemma_first_index_of(s, x);
    if first_index_of(s, x) is Some {
        let f = first_index_of(s, x)->0;
        if f < i {
            assert(s[f] != x);
        }
        if f > i {
            assert(s[i] != x);
        }
    }
}

// ---------------------------------------------------------------------------

/// A split always has at least one piece.
pub proof fn lemma_split_nonempty(s: Seq<char>, sep: char)
    ensures
        split(s, sep).len() >= 1,
    decreases s.len(),
{
    if s.len() > 0 {
        lemma_split_nonempty(s.drop_last(), sep);
    }
}

/// Splitting text joined by a separator gives the pieces of each part.
pub proof fn lemma_split_concat(a: Seq<char>, b: Seq<char>, sep: char)
    ensures
        split(a + seq![sep] + b, sep) == split(a, sep) + split(b, sep),
    decreases b.len(),
{
    let ab = a + seq![sep] + b;
    if b.len() == 0 {
        assert(ab == a + seq![sep]);
        assert((a + seq![sep]).drop_last() == a);
        assert(split(b, sep) == seq![Seq::<char>::empty()]);
        assert(split(a, sep).push(Seq::<char>::empty()) == split(a, sep) + seq![Seq::<char>::empty()]);
    } else {
        let b1 = b.drop_last();
        lemma_split_concat(a, b1, sep);
        lemma_split_nonempty(b1, sep);
        lemma_split_nonempty(a, sep);
        assert(ab.drop_last() == a + seq![sep] + b1);
        assert(ab.last() == b.last());
        let x = split(a, sep);
        let y = split(b1, sep);
        if b.last() == sep {
            assert((x + y).push(Seq::<char>::empty()) == x + y.push(Seq::<char>::empty()));
        } else {
            let v = (x + y).last().push(b.last());
            assert((x + y).last() == y.last());
            assert((x + y).update((x + y).len() - 1, v) == x + y.update(y.len() - 1, v));
        }
    }
}

/// `s` holds `sep` exactly when its split has more than one piece.
pub proof fn lemma_split_single_iff(s: Seq<char>, sep: char)
    ensures
        split(s, sep).len() == 1 <==> !s.contains(sep),
        split(s, sep).len() == 1 ==> split(s, sep)[0] == s,
    decreases s.len(),
{
    if s.len() > 0 {
        lemma_split_single_iff(s.drop_last(), sep);
        lemma_split_nonempty(s.drop_last(), sep);
        let p = s.drop_last();
        if s.last() == sep {
            assert(s.contains(sep)) by {
                assert(s[s.len() - 1] == sep);
            }
        } else {
            if p.contains(sep) {
                let k = choose|k: int| 0 <= k < p.len() && p[k] == sep;
                assert(s[k] == sep);
            }
            if s.contains(sep) {
                let k = choose|k: int| 0 <= k < s.len() && s[k] == sep;
                assert(p[k] == sep);
            }
            if !s.contains(sep) {
                assert(s == p.push(s.last()));
            }
        }
    }
}

/// A sequence that holds neither `a` nor `b` is its own last part.
pub proof fn lemma_after_last_of_plain(n: Seq<char>, a: char, b: char)
    requires
        !n.contains(a),
        !n.contains(b),
    ensures
        after_last_of(n, a, b) == n,
    decreases n.len(),
{
    if n.len() > 0 {
        let d = n.drop_last();
        assert(!d.contains(a) && !d.contains(b)) by {
            if d.contains(a) {
                let k = choose|k: int| 0 <= k < d.len() && d[k] == a;
                assert(n[k] == a);
            }
            if d.contains(b) {
                let k = choose|k: int| 0 <= k < d.len() && d[k] == b;
                assert(n[k] == b);
            }
        }
        lemma_after_last_of_plain(d, a, b);
        assert(n[n.len() - 1] == n.last());
        assert(d.push(n.last()) =~= n);
    }
}

/// What follows a separator `a` or `b` that no later `a` or `b` follows
/// is the last part, whatever comes before it.
pub proof fn lemma_after_last_of_tail(p: Seq<char>, n: Seq<char>, a: char, b: char)
    requires
        p.len() > 0,
        p.last() == a || p.last() == b,
        !n.contains(a),
        !n.contains(b),
    ensures
        after_last_of(p + n, a, b) == n,
    decreases n.len(),
{
    if n.len() == 0 {
        assert(p + n =~= p);
    } else {
        let d = n.drop_last();
        assert(!d.contains(a) && !d.contains(b)) by {
            if d.contains(a) {
                let k = choose|k: int| 0 <= k < d.len() && d[k] == a;
                assert(n[k] == a);
            }
            if d.contains(b) {
                let k = choose|k: int| 0 <= k < d.len() && d[k] == b;
                assert(n[k] == b);
            }
        }
        lemma_after_last_of_tail(p, d, a, b);
        assert((p + n).drop_last() =~= p + d);
        assert((p + n).last() == n.last());
        assert(n[n.len() - 1] == n.last());
        assert(d.push(n.last()) =~= n);
    }
}

/// A sequence that does not end with `c` has no trailing run of it.
pub proof fn lemma_trim_end_char_none(s: Seq<char>, c: char)
    requires
        s.len() > 0,
        s.last() != c,
    ensures
        trim_end_char(s, c) == s,
{
}

/// One more trailing `c` is trimmed like the rest.
pub proof fn lemma_trim_end_char_push(s: Seq<char>, c: char)
    ensures
        trim_end_char(s.push(c), c) == trim_end_char(s, c),
{
    assert(s.push(c).drop_last() =~= s);
}

/// Code point order on character sequences, as a relation.
pub open spec fn lex_order() -> spec_fn(Seq<char>, Seq<char>) -> bool {
    |a: Seq<char>, b: Seq<char>| lex_le(a, b)
}

/// `names` in code point order (what sorting strings by `Ord` gives).
pub open spec fn sorted_lex(names: Seq<Seq<char>>) -> Seq<Seq<char>> {
    names.sort_by(lex_order())
}

/// Code point order is reflexive.
pub proof fn lemma_lex_le_reflexive(a: Seq<char>)
    ensures
        lex_le(a, a),
    decreases a.len(),
{
    if a.len() > 0 {
        lemma_lex_le_reflexive(a.drop_first());
    }
}

/// Code point order is antisymmetric.
pub proof fn lemma_lex_le_antisymmetric(a: Seq<char>, b: Seq<char>)
    requires
        lex_le(a, b),
        lex_le(b, a),
    ensures
        a == b,
    decreases a.len(),
{
    if a.len() > 0 && b.len() > 0 {
        if a[0] == b[0] {
            lemma_lex_le_antisymmetric(a.drop_first(), b.drop_first());
            assert(a == seq![a[0]] + a.drop_first());
            assert(b == seq![b[0]] + b.drop_first());
        }
    }
}

/// Code point order is transitive.
pub proof fn lemma_lex_le_transitive(a: Seq<char>, b: Seq<char>, c: Seq<char>)
    requires
        lex_le(a, b),
        lex_le(b, c),
    ensures
        lex_le(a, c),
    decreases a.len(),
{
    if a.len() > 0 && b.len() > 0 && c.len() > 0 {
        if a[0] == b[0] && b[0] == c[0] {
            lemma_lex_le_transitive(a.drop_first(), b.drop_first(), c.drop_first());
        }
    }
}

/// Any two sequences are ordered one way or the other.
pub proof fn lemma_lex_le_total(a: Seq<char>, b: Seq<char>)
    ensures
        lex_le(a, b) || lex_le(b, a),
    decreases a.len(),
{
    if a.len() > 0 && b.len() > 0 {
        if a[0] == b[0] {
            lemma_lex_le_total(a.drop_first(), b.drop_first());
        } else {
            vstd::utf8::char_u32_cast(a[0], a[0] as u32);
            vstd::utf8::char_u32_cast(b[0], b[0] as u32);
            assert((a[0] as u32) != (b[0] as u32));
        }
    }
}

/// Code point order is a total order.
pub proof fn lemma_lex_order_total()
    ensures
        vstd::relations::total_ordering(lex_order()),
{
    assert forall|a: Seq<char>| #[trigger] lex_order()(a, a) by {
        lemma_lex_le_reflexive(a);
    }
    assert forall|a: Seq<char>, b: Seq<char>|
        #[trigger] lex_order()(a, b) && #[trigger] lex_order()(b, a) implies a == b by {
        lemma_lex_le_antisymmetric(a, b);
    }
    assert forall|a: Seq<char>, b: Seq<char>, c: Seq<char>|
        #[trigger] lex_order()(a, b) && #[trigger] lex_order()(b, c) implies lex_order()(a, c) by {
        lemma_lex_le_transitive(a, b, c);
    }
    assert forall|a: Seq<char>, b: Seq<char>| #[trigger] lex_order()(a, b) || #[trigger] lex_order()(
        b,
        a,
    ) by {
        lemma_lex_le_total(a, b);
    }
}

/// Inserting an element anywhere adds it to the multiset.
pub proof fn lemma_insert_to_multiset<A>(s: Seq<A>, i: int, a: A)
    requires
        0 <= i <= s.len(),
    ensures
        s.insert(i, a).to_multiset() == s.to_multiset().insert(a),
{
    broadcast use vstd::seq_lib::group_to_multiset_ensures;
    broadcast use vstd::multiset::group_multiset_axioms;

    let t = s.insert(i, a);
    assert(t.remove(i) == s);
    assert(t[i] == a);
    assert(t.contains(a));
    assert(t.to_multiset().remove(a).insert(a) =~= t.to_multiset());
}

// ---------------------------------------------------------------------------
// Executable operations
// ---------------------------------------------------------------------------

/// The characters of `s`, in order.
pub fn chars_of(s: &str) -> (res: Vec<char>)
    ensures
        res@ == s@,
{
    let mut res: Vec<char> = Vec::new();
    for c in it: s.chars()
        invariant
            res@ == it.seq().take(it.index() as int),
            it.seq() == s@,
    {
        res.push(c);
    }
    res
}

/// Appends one character to `s` (`String::push`).
#[verifier::external_body]
pub(crate) fn push_char(s: &mut String, c: char)
    ensures
        final(s)@ == old(s)@.push(c),
{
    s.push(c);
}

/// Appends the characters of `v` to `s`.
pub fn push_chars(s: &mut String, v: &[char])
    ensures
        final(s)@ == old(s)@ + v@,
{
    let ghost start = s@;
    let n = v.len();
    for i in 0..n
        invariant
            n == v@.len(),
            s@ == start + v@.take(i as int),
    {
        push_char(s, v[i]);
        assert(v@.take(i + 1) == v@.take(i as int).push(v@[i as int]));
    }
    assert(v@.take(n as int) == v@);
}

/// A string holding the characters of `v`.
pub fn string_of(v: &[char]) -> (res: String)
    ensures
        res@ == v@,
{
    let mut s = String::new();
    push_chars(&mut s, v);
    s
}

/// `prefix`, then `middle`, then `suffix`, as one string.
pub fn message(prefix: &str, middle: &[char], suffix: &str) -> (res: String)
    ensures
        res@ == prefix@ + middle@ + suffix@,
{
    let mut out = prefix.to_owned();
    push_chars(&mut out, middle);
    out.append(suffix);
    out
}

/// The characters `s[from..to]`.
pub fn slice_chars(s: &[char], from: usize, to: usize) -> (res: Vec<char>)
    requires
        from <= to <= s@.len(),
    ensures
        res@ == s@.subrange(from as int, to as int),
{
    let mut res: Vec<char> = Vec::new();
    let mut i = from;
    while i < to
        invariant
            from <= i <= to <= s@.len(),
            res@ == s@.subrange(from as int, i as int),
        decreases to - i,
    {
        res.push(s[i]);
        assert(s@.subrange(from as int, i + 1) == s@.subrange(from as int, i as int).push(s@[i as int]));
        i += 1;
    }
    res
}

/// Whether `c` is white space (`char::is_whitespace`).
pub fn is_white_space_char(c: char) -> (res: bool)
    ensures
        res == is_white_space(c),
{
    let n = c as u32;
    (0x09 <= n && n <= 0x0d) || n == 0x20 || n == 0x85 || n == 0xa0 || n == 0x1680 || (0x2000
        <= n && n <= 0x200a) || n == 0x2028 || n == 0x2029 || n == 0x202f || n == 0x205f || n
        == 0x3000
}

/// `s` without leading and trailing white space (`str::trim`).
pub fn trim_chars(s: &[char]) -> (res: Vec<char>)
    ensures
        res@ == trim(s@),
{
    let n = s.len();
    let mut i: usize = 0;
    assert(s@.skip(0) == s@);
    while i < n && is_white_space_char(s[i])
        invariant
            i <= n,
            n == s@.len(),
            trim_start(s@.skip(i as int)) == trim_start(s@),
        decreases n - i,
    {
        assert(s@.skip(i as int).drop_first() == s@.skip(i + 1));
        i += 1;
    }
    assert(trim_start(s@) == s@.skip(i as int));
    let mut j: usize = n;
    assert(s@.subrange(i as int, n as int) == s@.skip(i as int));
    while j > i && is_white_space_char(s[j - 1])
        invariant
            i <= j <= n,
            n == s@.len(),
            trim_end(s@.subrange(i as int, j as int)) == trim_end(s@.skip(i as int)),
        decreases j,
    {
        assert(s@.subrange(i as int, j as int).drop_last() == s@.subrange(i as int, j - 1));
        j -= 1;
    }
    slice_chars(s, i, j)
}

/// `s` without any trailing run of `c` (`str::trim_end_matches`).
pub fn trim_end_char_chars(s: &[char], c: char) -> (res: Vec<char>)
    ensures
        res@ == trim_end_char(s@, c),
{
    let n = s.len();
    let mut j: usize = n;
    assert(s@.take(n as int) == s@);
    while j > 0 && s[j - 1] == c
        invariant
            j <= n,
            n == s@.len(),
            trim_end_char(s@.take(j as int), c) == trim_end_char(s@, c),
        decreases j,
    {
        assert(s@.take(j as int).drop_last() == s@.take(j - 1));
        j -= 1;
    }
    slice_chars(s, 0, j)
}

/// Whether `s` holds `c`.
pub fn contains_char(s: &[char], c: char) -> (res: bool)
    ensures
        res == s@.contains(c),
{
    let n = s.len();
    for i in 0..n
        invariant
            n == s@.len(),
            forall|k: int| 0 <= k < i ==> s@[k] != c,
    {
        if s[i] == c {
            assert(s@[i as int] == c);
            return true;
        }
    }
    false
}

/// Whether `a` and `b` hold the same characters.
pub fn chars_equal(a: &[char], b: &[char]) -> (res: bool)
    ensures
        res == (a@ == b@),
{
    if a.len() != b.len() {
        return false;
    }
    let n = a.len();
    for i in 0..n
        invariant
            n == a@.len(),
            n == b@.len(),
            forall|k: int| 0 <= k < i ==> a@[k] == b@[k],
    {
        if a[i] != b[i] {
            return false;
        }
    }
    assert(a@ == b@);
    true
}

/// Whether `a` and `b` hold the same characters.
pub fn str_equals(a: &str, b: &str) -> (res: bool)
    ensures
        res == (a@ == b@),
{
    let x = chars_of(a);
    let y = chars_of(b);
    chars_equal(&x, &y)
}

/// Copies of the strings `v[from..]`.
pub fn strings_from(v: &[String], from: usize) -> (res: Vec<String>)
    requires
        from <= v@.len(),
    ensures
        string_views(res@) == string_views(v@).skip(from as int),
{
    let mut res: Vec<String> = Vec::new();
    let n = v.len();
    let mut i = from;
    while i < n
        invariant
            from <= i <= n,
            n == v@.len(),
            string_views(res@) == string_views(v@).subrange(from as int, i as int),
        decreases n - i,
    {
        let ghost before = string_views(res@);
        let c = v[i].clone();
        assert(c@ == v@[i as int]@);
        res.push(c);
        assert(string_views(res@) =~= before.push(c@));
        assert(string_views(res@) =~= string_views(v@).subrange(from as int, i + 1));
        i += 1;
    }
    assert(string_views(v@).subrange(from as int, n as int) == string_views(v@).skip(from as int));
    res
}

/// Whether `s` ends with `suffix`.
pub fn ends_with_chars(s: &[char], suffix: &[char]) -> (res: bool)
    ensures
        res == has_suffix(s@, suffix@),
{
    if suffix.len() > s.len() {
        return false;
    }
    let off = s.len() - suffix.len();
    let n = suffix.len();
    for i in 0..n
        invariant
            n == suffix@.len(),
            off + n == s@.len(),
            s@.len() == s.len(),
            forall|k: int| 0 <= k < i ==> s@[off + k] == suffix@[k],
    {
        if s[off + i] != suffix[i] {
            assert(s@.skip(off as int)[i as int] != suffix@[i as int]);
            return false;
        }
    }
    assert(s@.skip(off as int) == suffix@);
    true
}

/// `s` without `suffix` where it ends with it, else `s`.
pub fn strip_suffix_or_self_chars(s: &[char], suffix: &[char]) -> (res: Vec<char>)
    ensures
        res@ == strip_suffix_or_self(s@, suffix@),
{
    if ends_with_chars(s, suffix) {
        slice_chars(s, 0, s.len() - suffix.len())
    } else {
        slice_chars(s, 0, s.len())
    }
}

/// What follows the last `a` or `b` in `s`.
pub fn after_last_of_chars(s: &[char], a: char, b: char) -> (res: Vec<char>)
    ensures
        res@ == after_last_of(s@, a, b),
{
    let n = s.len();
    let mut j: usize = n;
    assert(s@.take(n as int) == s@);
    assert(after_last_of(s@, a, b) == after_last_of(s@.take(n as int), a, b) + s@.subrange(n as int, n as int));
    while j > 0 && s[j - 1] != a && s[j - 1] != b
        invariant
            j <= n,
            n == s@.len(),
            after_last_of(s@, a, b) == after_last_of(s@.take(j as int), a, b) + s@.subrange(j as int, n as int),
        decreases j,
    {
        let ghost t = s@.take(j as int);
        assert(t.drop_last() == s@.take(j - 1));
        assert(after_last_of(t, a, b) == after_last_of(s@.take(j - 1), a, b).push(s@[j - 1]));
        assert(after_last_of(s@.take(j - 1), a, b).push(s@[j - 1]) + s@.subrange(j as int, n as int)
            == after_last_of(s@.take(j - 1), a, b) + s@.subrange(j - 1, n as int));
        j -= 1;
    }
    slice_chars(s, j, n)
}

/// The pieces of `s` between occurrences of `sep` (`str::split`).
pub fn split_chars(s: &[char], sep: char) -> (res: Vec<Vec<char>>)
    ensures
        views(res@) == split(s@, sep),
{
    let mut pieces: Vec<Vec<char>> = Vec::new();
    let mut cur: Vec<char> = Vec::new();
    let n = s.len();
    assert(s@.take(0) == Seq::<char>::empty());
    assert(views(pieces@).push(cur@) == split(s@.take(0), sep));
    for i in 0..n
        invariant
            n == s@.len(),
            views(pieces@).push(cur@) == split(s@.take(i as int), sep),
    {
        let ghost before = s@.take(i as int);
        assert(s@.take(i + 1).drop_last() == before);
        let c = s[i];
        if c == sep {
            let ghost old_views = views(pieces@);
            pieces.push(cur);
            assert(views(pieces@) == old_views.push(cur@));
            cur = Vec::new();
        } else {
            cur.push(c);
            assert(views(pieces@).push(cur@) =~= split(s@.take(i + 1), sep));
        }
    }
    assert(s@.take(n as int) == s@);
    let ghost old_views = views(pieces@);
    pieces.push(cur);
    assert(views(pieces@) == old_views.push(cur@));
    pieces
}

/// Appends `r` to `out` for each `c` in `s`, and the other characters as
/// they are.
pub fn push_replacing(out: &mut String, s: &[char], c: char, r: &str)
    ensures
        final(out)@ == old(out)@ + replace_char(s@, c, r@),
{
    let ghost start = out@;
    let n = s.len();
    assert(s@.take(0) == Seq::<char>::empty());
    for i in 0..n
        invariant
            n == s@.len(),
            out@ == start + replace_char(s@.take(i as int), c, r@),
    {
        assert(s@.take(i + 1).drop_last() == s@.take(i as int));
        let ghost prev = out@;
        if s[i] == c {
            out.append(r);
        } else {
            push_char(out, s[i]);
            assert(out@ == prev + seq![s@[i as int]]);
        }
        assert(out@ == start + replace_char(s@.take(i + 1), c, r@));
    }
    assert(s@.take(n as int) == s@);
}

/// Appends the decimal notation of `n` to `out`.
pub fn push_decimal(out: &mut String, n: u64)
    ensures
        final(out)@ == old(out)@ + decimal(n as nat),
    decreases n,
{
    if n >= 10 {
        push_decimal(out, n / 10);
    }
    let d = n % 10;
    let c = if d == 0 {
        '0'
    } else if d == 1 {
        '1'
    } else if d == 2 {
        '2'
    } else if d == 3 {
        '3'
    } else if d == 4 {
        '4'
    } else if d == 5 {
        '5'
    } else if d == 6 {
        '6'
    } else if d == 7 {
        '7'
    } else if d == 8 {
        '8'
    } else {
        '9'
    };
    push_char(out, c);
}

/// Appends `s` to `out`, padded on the right with spaces to `width`
/// characters.
pub fn push_padded(out: &mut String, s: &[char], width: usize)
    ensures
        final(out)@ == old(out)@ + pad_right(s@, width as nat),
{
    let ghost start = out@;
    push_chars(out, s);
    let mut k = s.len();
    while k < width
        invariant
            k >= s@.len(),
            k <= width || k == s@.len(),
            out@ == start + s@ + spaces((k - s@.len()) as nat),
        decreases width - k,
    {
        push_char(out, ' ');
        assert(spaces((k - s@.len()) as nat).push(' ') == spaces((k + 1 - s@.len()) as nat));
        k += 1;
    }
    assert(spaces(0) == Seq::<char>::empty());
}

/// `items` in code point order, equal items in the order they came.
pub fn sort_lex(items: Vec<Vec<char>>) -> (res: Vec<Vec<char>>)
    ensures
        views(res@) == sorted_lex(views(items@)),
{
    broadcast use vstd::seq_lib::group_to_multiset_ensures;
    broadcast use vstd::multiset::group_multiset_axioms;

    let ghost given = views(items@);
    let mut rest = items;
    let mut sorted: Vec<Vec<char>> = Vec::new();
    assert(views(sorted@) == Seq::<Seq<char>>::empty());
    while rest.len() > 0
        invariant
            vstd::relations::sorted_by(views(sorted@), lex_order()),
            views(sorted@).to_multiset().add(views(rest@).to_multiset()) == given.to_multiset(),
        decreases rest.len(),
    {
        let ghost before_rest = views(rest@);
        let ghost before_sorted = views(sorted@);
        let x = rest.pop().unwrap();
        assert(before_rest == views(rest@).push(x@));
        let n = sorted.len();
        let mut j: usize = 0;
        while j < n && lex_le_chars(sorted[j].as_slice(), x.as_slice())
            invariant
                j <= n,
                n == sorted@.len(),
                before_sorted == views(sorted@),
                forall|k: int| 0 <= k < j ==> lex_le(#[trigger] before_sorted[k], x@),
            decreases n - j,
        {
            assert(before_sorted[j as int] == sorted@[j as int]@);
            j += 1;
        }
        proof {
            lemma_lex_order_total();
            if j < n {
                assert(before_sorted[j as int] == sorted@[j as int]@);
                lemma_lex_le_total(before_sorted[j as int], x@);
            }
        }
        sorted.insert(j, x);
        proof {
            let after = views(sorted@);
            assert(after =~= before_sorted.insert(j as int, x@));
            lemma_insert_to_multiset(before_sorted, j as int, x@);
            assert forall|a: int, b: int| 0 <= a < b < after.len() implies #[trigger] lex_order()(
                after[a],
                after[b],
            ) by {
                if b < j {
                } else if a < j && b == j {
                } else if a < j {
                    assert(lex_order()(before_sorted[a], before_sorted[j as int]) || j == n);
                    if j < n {
                        assert(lex_order()(x@, before_sorted[j as int]));
                        assert(lex_order()(before_sorted[a], before_sorted[b - 1]));
                    }
                } else if a == j {
                    assert(lex_order()(x@, before_sorted[j as int]));
                    if b - 1 > j {
                        assert(lex_order()(before_sorted[j as int], before_sorted[b - 1]));
                    }
                } else {
                    assert(lex_order()(before_sorted[a - 1], before_sorted[b - 1]));
                }
            }
            views(rest@).to_multiset_ensures();
            assert(views(rest@).push(x@).to_multiset() =~= views(rest@).to_multiset().insert(x@));
            assert(before_rest.to_multiset() == views(rest@).to_multiset().insert(x@));
            assert(after.to_multiset().add(views(rest@).to_multiset()) =~= given.to_multiset());
        }
    }
    proof {
        assert(views(rest@) == Seq::<Seq<char>>::empty());
        assert(views(sorted@).to_multiset() =~= given.to_multiset());
        lemma_lex_order_total();
        given.lemma_sort_by_ensures(lex_order());
        vstd::seq_lib::lemma_sorted_unique(views(sorted@), sorted_lex(given), lex_order());
    }
    sorted
}

/// Whether `a` comes no later than `b` in code point order.
pub fn lex_le_chars(a: &[char], b: &[char]) -> (res: bool)
    ensures
        res == lex_le(a@, b@),
{
    let mut i: usize = 0;
    assert(a@.skip(0) == a@);
    assert(b@.skip(0) == b@);
    loop
        invariant
            i <= a@.len(),
            i <= b@.len(),
            lex_le(a@.skip(i as int), b@.skip(i as int)) == lex_le(a@, b@),
        decreases a@.len() - i,
    {
        if i == a.len() {
            return true;
        }
        if i == b.len() {
            return false;
        }
        if a[i] != b[i] {
            return (a[i] as u32) < (b[i] as u32);
        }
        assert(a@.skip(i as int).drop_first() == a@.skip(i + 1));
        assert(b@.skip(i as int).drop_first() == b@.skip(i + 1));
        i += 1;
    }
}

} // verus!
