//! Small verified text operations over `&str` and `String`, specified
//! against the `Seq<char>` views.

use vstd::prelude::*;

verus! {

/// The `Seq<char>` views of a sequence of owned strings.
pub open spec fn str_views(v: Seq<String>) -> Seq<Seq<char>> {
    v.map_values(|s: String| s@)
}

/// The views of a sequence of values, elementwise.
pub open spec fn views_of<T: View>(s: Seq<T>) -> Seq<T::V> {
    Seq::new(s.len(), |i: int| s[i]@)
}

pub broadcast proof fn lemma_str_views_len(v: Seq<String>)
    ensures
        #[trigger] str_views(v).len() == v.len(),
{
}

pub broadcast proof fn lemma_str_views_index(v: Seq<String>, i: int)
    requires
        0 <= i < v.len(),
    ensures
        #[trigger] str_views(v)[i] == v[i]@,
{
}

pub broadcast group group_str_views {
    lemma_str_views_len,
    lemma_str_views_index,
}

/// True for the ASCII whitespace characters this pipeline's inputs use.
pub open spec fn is_space(c: char) -> bool {
    c == ' ' || c == '\t' || c == '\r' || c == '\n'
}

/// Executable test matching `is_space`.
pub fn char_is_space(c: char) -> (r: bool)
    ensures
        r == is_space(c),
{
    c == ' ' || c == '\t' || c == '\r' || c == '\n'
}

/// Index of the first occurrence of `c` in `s`, or `s.len()` if `c` does
/// not occur.
pub open spec fn first_idx_of(s: Seq<char>, c: char) -> nat
    decreases s.len(),
{
    if s.len() == 0 {
        0
    } else if s[0] == c {
        0
    } else {
        1 + first_idx_of(s.drop_first(), c)
    }
}

/// Index of the first whitespace character in `s`, or `s.len()` if none.
pub open spec fn first_space_idx(s: Seq<char>) -> nat
    decreases s.len(),
{
    if s.len() == 0 {
        0
    } else if is_space(s[0]) {
        0
    } else {
        1 + first_space_idx(s.drop_first())
    }
}

pub proof fn lemma_first_idx_of(s: Seq<char>, c: char)
    ensures
        first_idx_of(s, c) <= s.len(),
        first_idx_of(s, c) < s.len() ==> s[first_idx_of(s, c) as int] == c,
        forall|j: int| 0 <= j < first_idx_of(s, c) ==> s[j] != c,
    decreases s.len(),
{
    if s.len() > 0 && s[0] != c {
        lemma_first_idx_of(s.drop_first(), c);
        assert forall|j: int| 0 <= j < first_idx_of(s, c) implies s[j] != c by {
            if j > 0 {
                assert(s.drop_first()[j - 1] != c);
            }
        }
    }
}

/// Converse characterization: a position before which `c` does not occur,
/// and which holds `c` unless it is the end, is the first occurrence.
pub proof fn lemma_first_idx_of_is(s: Seq<char>, c: char, k: nat)
    requires
        k <= s.len(),
        forall|j: int| 0 <= j < k ==> s[j] != c,
        k < s.len() ==> s[k as int] == c,
    ensures
        first_idx_of(s, c) == k,
    decreases s.len(),
{
    if s.len() > 0 && s[0] != c {
        lemma_first_idx_of_is(s.drop_first(), c, (k - 1) as nat);
    }
}

pub proof fn lemma_first_space_idx_is(s: Seq<char>, k: nat)
    requires
        k <= s.len(),
        forall|j: int| 0 <= j < k ==> !is_space(s[j]),
        k < s.len() ==> is_space(s[k as int]),
    ensures
        first_space_idx(s) == k,
    decreases s.len(),
{
    if s.len() > 0 && !is_space(s[0]) {
        lemma_first_space_idx_is(s.drop_first(), (k - 1) as nat);
    }
}

/// Whether `p` is a prefix of `s`.
pub fn starts_with(s: &str, p: &str) -> (r: bool)
    ensures
        r == p@.is_prefix_of(s@),
{
    let s_len = s.unicode_len();
    let p_len = p.unicode_len();
    if p_len > s_len {
        return false;
    }
    let mut i: usize = 0;
    while i < p_len
        invariant
            i <= p_len <= s_len,
            p_len == p@.len(),
            s_len == s@.len(),
            forall|j: int| 0 <= j < i ==> p@[j] == s@[j],
        decreases p_len - i,
    {
        if s.get_char(i) != p.get_char(i) {
            assert(!p@.is_prefix_of(s@));
            return false;
        }
        i = i + 1;
    }
    assert(p@ =~= s@.subrange(0, p@.len() as int));
    true
}

/// Whether `p` is a suffix of `s`.
pub fn ends_with(s: &str, p: &str) -> (r: bool)
    ensures
        r == p@.is_suffix_of(s@),
{
    let s_len = s.unicode_len();
    let p_len = p.unicode_len();
    if p_len > s_len {
        return false;
    }
    let off = s_len - p_len;
    let mut i: usize = 0;
    while i < p_len
        invariant
            i <= p_len <= s_len,
            off == s_len - p_len,
            p_len == p@.len(),
            s_len == s@.len(),
            forall|j: int| 0 <= j < i ==> p@[j] == s@[off + j],
        decreases p_len - i,
    {
        if s.get_char(off + i) != p.get_char(i) {
            assert(!p@.is_suffix_of(s@));
            return false;
        }
        i = i + 1;
    }
    assert(p@ =~= s@.subrange(s@.len() - p@.len(), s@.len() as int));
    true
}

/// Whether two strings hold the same characters.
pub fn str_eq(a: &str, b: &str) -> (r: bool)
    ensures
        r == (a@ == b@),
{
    let a_len = a.unicode_len();
    let b_len = b.unicode_len();
    if a_len != b_len {
        return false;
    }
    let mut i: usize = 0;
    while i < a_len
        invariant
            i <= a_len,
            a_len == a@.len() == b@.len(),
            forall|j: int| 0 <= j < i ==> a@[j] == b@[j],
        decreases a_len - i,
    {
        if a.get_char(i) != b.get_char(i) {
            return false;
        }
        i = i + 1;
    }
    assert(a@ =~= b@);
    true
}

/// Whether `c` occurs in `s`.
pub fn contains_char(s: &str, c: char) -> (r: bool)
    ensures
        r == s@.contains(c),
{
    let len = s.unicode_len();
    let mut i: usize = 0;
    while i < len
        invariant
            i <= len,
            len == s@.len(),
            forall|j: int| 0 <= j < i ==> s@[j] != c,
        decreases len - i,
    {
        if s.get_char(i) == c {
            return true;
        }
        i = i + 1;
    }
    false
}

/// Position of the first occurrence of `c` in `s`, if any.
pub fn index_of_char(s: &str, c: char) -> (r: Option<usize>)
    ensures
        match r {
            Some(i) => i == first_idx_of(s@, c) && i < s@.len() && s@[i as int] == c,
            None => first_idx_of(s@, c) == s@.len(),
        },
{
    let len = s.unicode_len();
    let mut i: usize = 0;
    while i < len
        invariant
            i <= len,
            len == s@.len(),
            forall|j: int| 0 <= j < i ==> s@[j] != c,
        decreases len - i,
    {
        if s.get_char(i) == c {
            proof {
                lemma_first_idx_of_is(s@, c, i as nat);
            }
            return Some(i);
        }
        i = i + 1;
    }
    proof {
        lemma_first_idx_of_is(s@, c, len as nat);
    }
    None
}

/// The pieces of `s` between occurrences of the separator `c`: always one
/// more piece than there are separators, so empty pieces are kept.
pub open spec fn spec_split(s: Seq<char>, c: char) -> Seq<Seq<char>>
    decreases s.len(),
{
    let i = first_idx_of(s, c);
    if i >= s.len() {
        seq![s]
    } else {
        seq![s.take(i as int)] + spec_split(s.skip(i as int + 1), c)
    }
}

pub proof fn lemma_split_len(s: Seq<char>, c: char)
    ensures
        spec_split(s, c).len() >= 1,
    decreases s.len(),
{
    let i = first_idx_of(s, c);
    if i < s.len() {
        lemma_first_idx_of(s, c);
        lemma_split_len(s.skip(i as int + 1), c);
    }
}

/// Unfolding step for `spec_split` at a known first separator position.
pub proof fn lemma_split_step(s: Seq<char>, c: char, k: nat)
    requires
        k < s.len(),
        s[k as int] == c,
        forall|j: int| 0 <= j < k ==> s[j] != c,
    ensures
        spec_split(s, c) == seq![s.take(k as int)] + spec_split(s.skip(k as int + 1), c),
{
    lemma_first_idx_of_is(s, c, k);
}

/// `spec_split` of a separator-free text is that text alone.
pub proof fn lemma_split_whole(s: Seq<char>, c: char)
    requires
        forall|j: int| 0 <= j < s.len() ==> s[j] != c,
    ensures
        spec_split(s, c) == seq![s],
{
    lemma_first_idx_of_is(s, c, s.len());
}

/// The pieces of `s` between occurrences of `c`, one more piece than
/// separators, empty pieces kept.
pub fn split_char(s: &str, c: char) -> (r: Vec<String>)
    ensures
        str_views(r@) == spec_split(s@, c),
        r@.len() >= 1,
{
    let len = s.unicode_len();
    let mut r: Vec<String> = Vec::new();
    let mut start: usize = 0;
    let mut i: usize = 0;
    proof {
        assert(s@.skip(0) =~= s@);
        assert(str_views(r@) + spec_split(s@, c) =~= spec_split(s@, c));
    }
    while i < len
        invariant
            start <= i <= len,
            len == s@.len(),
            forall|j: int| start <= j < i ==> s@[j] != c,
            spec_split(s@, c) == str_views(r@) + spec_split(s@.skip(start as int), c),
        decreases len - i,
    {
        if s.get_char(i) == c {
            let piece = substring(s, start, i);
            proof {
                let t = s@.skip(start as int);
                assert(forall|j: int| 0 <= j < i - start ==> t[j] == s@[start + j]);
                lemma_split_step(t, c, (i - start) as nat);
                assert(t.take(i - start) =~= piece@);
                assert(t.skip(i - start + 1) =~= s@.skip(i as int + 1));
                assert(str_views(r@.push(piece)) =~= str_views(r@) + seq![piece@]);
                assert(str_views(r@) + spec_split(t, c) =~= str_views(r@.push(piece))
                    + spec_split(s@.skip(i as int + 1), c));
            }
            r.push(piece);
            start = i + 1;
        }
        i = i + 1;
    }
    let piece = substring(s, start, len);
    proof {
        let t = s@.skip(start as int);
        assert(forall|j: int| 0 <= j < t.len() ==> t[j] == s@[start + j]);
        lemma_split_whole(t, c);
        assert(t =~= piece@);
        assert(str_views(r@.push(piece)) =~= str_views(r@) + seq![piece@]);
        assert(str_views(r@) + spec_split(t, c) =~= str_views(r@.push(piece)));
    }
    r.push(piece);
    r
}

/// The lines of `s`: pieces separated by `'\n'`, a trailing empty piece
/// dropped, so a final newline does not yield an extra empty line.
pub open spec fn spec_lines(s: Seq<char>) -> Seq<Seq<char>> {
    let p = spec_split(s, '\n');
    if p.last().len() == 0 {
        p.drop_last()
    } else {
        p
    }
}

/// The lines of `s`, newline-separated, without a trailing empty line.
pub fn lines(s: &str) -> (r: Vec<String>)
    ensures
        str_views(r@) == spec_lines(s@),
{
    let mut p = split_char(s, '\n');
    proof {
        lemma_split_len(s@, '\n');
    }
    let last_len = p[p.len() - 1].as_str().unicode_len();
    if last_len == 0 {
        proof {
            assert(str_views(p@).last().len() == 0);
            assert(str_views(p@.drop_last()) =~= str_views(p@).drop_last());
        }
        p.pop();
    }
    p
}

/// The whitespace-separated words of `s`, in order, each nonempty.
pub open spec fn spec_fields(s: Seq<char>) -> Seq<Seq<char>>
    decreases s.len(),
{
    if s.len() == 0 {
        Seq::empty()
    } else if is_space(s[0]) {
        spec_fields(s.drop_first())
    } else {
        let i = first_space_idx(s);
        if i >= s.len() {
            seq![s]
        } else {
            seq![s.take(i as int)] + spec_fields(s.skip(i as int))
        }
    }
}

/// Unfolding step: a leading space does not change the words.
pub proof fn lemma_fields_space(s: Seq<char>)
    requires
        s.len() > 0,
        is_space(s[0]),
    ensures
        spec_fields(s) == spec_fields(s.drop_first()),
{
}

/// Unfolding step: a word reaching to position `k` is the first field.
pub proof fn lemma_fields_word(s: Seq<char>, k: nat)
    requires
        0 < k <= s.len(),
        forall|j: int| 0 <= j < k ==> !is_space(s[j]),
        k < s.len() ==> is_space(s[k as int]),
    ensures
        spec_fields(s) == seq![s.take(k as int)] + spec_fields(s.skip(k as int)),
{
    lemma_first_space_idx_is(s, k);
    if k == s.len() {
        assert(s.take(k as int) =~= s);
        assert(s.skip(k as int) =~= Seq::<char>::empty());
        assert(spec_fields(s) =~= seq![s.take(k as int)] + spec_fields(s.skip(k as int)));
    }
}

/// The whitespace-separated words of `s`.
pub fn fields(s: &str) -> (r: Vec<String>)
    ensures
        str_views(r@) == spec_fields(s@),
{
    let len = s.unicode_len();
    let mut r: Vec<String> = Vec::new();
    let mut i: usize = 0;
    proof {
        assert(s@.skip(0) =~= s@);
        assert(str_views(r@) + spec_fields(s@) =~= spec_fields(s@));
    }
    while i < len
        invariant
            i <= len,
            len == s@.len(),
            spec_fields(s@) == str_views(r@) + spec_fields(s@.skip(i as int)),
        decreases len - i,
    {
        if char_is_space(s.get_char(i)) {
            proof {
                let t = s@.skip(i as int);
                lemma_fields_space(t);
                assert(t.drop_first() =~= s@.skip(i as int + 1));
            }
            i = i + 1;
        } else {
            let mut k = i + 1;
            while k < len && !char_is_space(s.get_char(k))
                invariant
                    i < k <= len,
                    len == s@.len(),
                    forall|j: int| i <= j < k ==> !is_space(s@[j]),
                decreases len - k,
            {
                k = k + 1;
            }
            let piece = substring(s, i, k);
            proof {
                let t = s@.skip(i as int);
                assert(forall|j: int| 0 <= j < t.len() ==> t[j] == s@[i + j]);
                lemma_fields_word(t, (k - i) as nat);
                assert(t.take(k - i) =~= piece@);
                assert(t.skip(k - i) =~= s@.skip(k as int));
                assert(str_views(r@.push(piece)) =~= str_views(r@) + seq![piece@]);
                assert(str_views(r@) + spec_fields(t) =~= str_views(r@.push(piece))
                    + spec_fields(s@.skip(k as int)));
            }
            r.push(piece);
            i = k;
        }
    }
    proof {
        assert(s@.skip(len as int) =~= Seq::<char>::empty());
        assert(str_views(r@) + spec_fields(Seq::<char>::empty()) =~= str_views(r@));
    }
    r
}

/// `s` without leading whitespace.
pub open spec fn spec_trim_start(s: Seq<char>) -> Seq<char>
    decreases s.len(),
{
    if s.len() > 0 && is_space(s[0]) {
        spec_trim_start(s.drop_first())
    } else {
        s
    }
}

/// `s` without trailing whitespace.
pub open spec fn spec_trim_end(s: Seq<char>) -> Seq<char>
    decreases s.len(),
{
    if s.len() > 0 && is_space(s.last()) {
        spec_trim_end(s.drop_last())
    } else {
        s
    }
}

/// `s` without leading and trailing whitespace.
pub open spec fn spec_trim(s: Seq<char>) -> Seq<char> {
    spec_trim_end(spec_trim_start(s))
}

pub proof fn lemma_trim_start_at(s: Seq<char>, k: nat)
    requires
        k <= s.len(),
        forall|j: int| 0 <= j < k ==> is_space(s[j]),
        k < s.len() ==> !is_space(s[k as int]),
    ensures
        spec_trim_start(s) == s.skip(k as int),
    decreases k,
{
    if k == 0 {
        assert(s.skip(0) =~= s);
    } else {
        lemma_trim_start_at(s.drop_first(), (k - 1) as nat);
        assert(s.drop_first().skip(k as int - 1) =~= s.skip(k as int));
    }
}

pub proof fn lemma_trim_end_at(s: Seq<char>, k: nat)
    requires
        k <= s.len(),
        forall|j: int| k <= j < s.len() ==> is_space(s[j]),
        k > 0 ==> !is_space(s[k as int - 1]),
    ensures
        spec_trim_end(s) == s.take(k as int),
    decreases s.len(),
{
    if k == s.len() {
        assert(s.take(k as int) =~= s);
    } else {
        lemma_trim_end_at(s.drop_last(), k);
        assert(s.drop_last().take(k as int) =~= s.take(k as int));
    }
}

/// `s` without leading and trailing whitespace.
pub fn trim(s: &str) -> (r: String)
    ensures
        r@ == spec_trim(s@),
{
    let len = s.unicode_len();
    let mut a: usize = 0;
    while a < len && char_is_space(s.get_char(a))
        invariant
            a <= len,
            len == s@.len(),
            forall|j: int| 0 <= j < a ==> is_space(s@[j]),
        decreases len - a,
    {
        a = a + 1;
    }
    proof {
        lemma_trim_start_at(s@, a as nat);
    }
    if a == len {
        proof {
            assert(s@.skip(a as int) =~= Seq::<char>::empty());
        }
        return String::new();
    }
    let mut b: usize = len;
    while b > a && char_is_space(s.get_char(b - 1))
        invariant
            a <= b <= len,
            len == s@.len(),
            forall|j: int| b <= j < len ==> is_space(s@[j]),
        decreases b,
    {
        b = b - 1;
    }
    let r = substring(s, a, b);
    proof {
        let t = s@.skip(a as int);
        assert(forall|j: int| 0 <= j < t.len() ==> t[j] == s@[a + j]);
        lemma_trim_end_at(t, (b - a) as nat);
        assert(t.take(b - a) =~= r@);
    }
    r
}

/// What follows the last occurrence of `c` in `s`; all of `s` when `c`
/// does not occur.
pub open spec fn spec_after_last(s: Seq<char>, c: char) -> Seq<char>
    decreases s.len(),
{
    if s.len() == 0 {
        s
    } else if s.last() == c {
        Seq::empty()
    } else {
        spec_after_last(s.drop_last(), c).push(s.last())
    }
}

pub proof fn lemma_after_last_at(s: Seq<char>, c: char, k: nat)
    requires
        k < s.len(),
        s[k as int] == c,
        forall|j: int| k < j < s.len() ==> s[j] != c,
    ensures
        spec_after_last(s, c) == s.skip(k as int + 1),
    decreases s.len(),
{
    if k + 1 == s.len() {
        assert(s.skip(k as int + 1) =~= Seq::<char>::empty());
    } else {
        lemma_after_last_at(s.drop_last(), c, k);
        assert(s.drop_last().skip(k as int + 1).push(s.last()) =~= s.skip(k as int + 1));
    }
}

pub proof fn lemma_after_last_none(s: Seq<char>, c: char)
    requires
        forall|j: int| 0 <= j < s.len() ==> s[j] != c,
    ensures
        spec_after_last(s, c) == s,
    decreases s.len(),
{
    if s.len() > 0 {
        lemma_after_last_none(s.drop_last(), c);
        assert(s.drop_last().push(s.last()) =~= s);
    }
}

/// The characters after the last occurrence of `c`, or all of `s`.
pub fn after_last(s: &str, c: char) -> (r: String)
    ensures
        r@ == spec_after_last(s@, c),
{
    let len = s.unicode_len();
    let mut b: usize = len;
    while b > 0
        invariant
            b <= len,
            len == s@.len(),
            forall|j: int| b <= j < len ==> s@[j] != c,
        decreases b,
    {
        if s.get_char(b - 1) == c {
            let r = substring(s, b, len);
            proof {
                lemma_after_last_at(s@, c, (b - 1) as nat);
            }
            return r;
        }
        b = b - 1;
    }
    proof {
        lemma_after_last_none(s@, c);
    }
    let r = substring(s, 0, len);
    proof {
        assert(s@.subrange(0, len as int) =~= s@);
    }
    r
}

/// Lexicographic order on character sequences, by code point, shorter
/// prefixes first.
pub open spec fn lex_leq(a: Seq<char>, b: Seq<char>) -> bool
    decreases a.len(),
{
    if a.len() == 0 {
        true
    } else if b.len() == 0 {
        false
    } else if (a[0] as u32) == (b[0] as u32) {
        lex_leq(a.drop_first(), b.drop_first())
    } else {
        (a[0] as u32) < (b[0] as u32)
    }
}

pub proof fn lemma_lex_leq_refl(a: Seq<char>)
    ensures
        lex_leq(a, a),
    decreases a.len(),
{
    if a.len() > 0 {
        lemma_lex_leq_refl(a.drop_first());
    }
}

pub proof fn lemma_lex_leq_total(a: Seq<char>, b: Seq<char>)
    ensures
        lex_leq(a, b) || lex_leq(b, a),
    decreases a.len(),
{
    if a.len() > 0 && b.len() > 0 && (a[0] as u32) == (b[0] as u32) {
        lemma_lex_leq_total(a.drop_first(), b.drop_first());
    }
}

pub proof fn lemma_lex_leq_trans(a: Seq<char>, b: Seq<char>, c: Seq<char>)
    requires
        lex_leq(a, b),
        lex_leq(b, c),
    ensures
        lex_leq(a, c),
    decreases a.len(),
{
    if a.len() > 0 && b.len() > 0 && c.len() > 0 && (a[0] as u32) == (b[0] as u32) && (
    b[0] as u32) == (c[0] as u32) {
        lemma_lex_leq_trans(a.drop_first(), b.drop_first(), c.drop_first());
    }
}

/// Skipping a common prefix does not change the order.
pub proof fn lemma_lex_leq_skip(a: Seq<char>, b: Seq<char>, i: nat)
    requires
        i <= a.len(),
        i <= b.len(),
        forall|j: int| 0 <= j < i ==> a[j] == b[j],
    ensures
        lex_leq(a, b) == lex_leq(a.skip(i as int), b.skip(i as int)),
    decreases i,
{
    if i == 0 {
        assert(a.skip(0) =~= a);
        assert(b.skip(0) =~= b);
    } else {
        assert(a.len() > 0 && b.len() > 0 && (a[0] as u32) == (b[0] as u32));
        lemma_lex_leq_skip(a.drop_first(), b.drop_first(), (i - 1) as nat);
        assert(a.drop_first().skip(i as int - 1) =~= a.skip(i as int));
        assert(b.drop_first().skip(i as int - 1) =~= b.skip(i as int));
    }
}

/// Whether `a` comes no later than `b` in lexicographic order.
pub fn str_leq(a: &str, b: &str) -> (r: bool)
    ensures
        r == lex_leq(a@, b@),
{
    let a_len = a.unicode_len();
    let b_len = b.unicode_len();
    let min = if a_len < b_len {
        a_len
    } else {
        b_len
    };
    let mut i: usize = 0;
    while i < min
        invariant
            i <= min,
            min == if a_len < b_len {
                a_len
            } else {
                b_len
            },
            a_len == a@.len(),
            b_len == b@.len(),
            forall|j: int| 0 <= j < i ==> a@[j] == b@[j],
        decreases min - i,
    {
        let ca = a.get_char(i);
        let cb = b.get_char(i);
        if ca != cb {
            proof {
                lemma_lex_leq_skip(a@, b@, i as nat);
            }
            return (ca as u32) < (cb as u32);
        }
        i = i + 1;
    }
    proof {
        lemma_lex_leq_skip(a@, b@, min as nat);
        if a_len <= b_len {
            assert(a@.skip(min as int) =~= Seq::<char>::empty());
        } else {
            assert(b@.skip(min as int) =~= Seq::<char>::empty());
            assert(a@.skip(min as int).len() > 0);
        }
    }
    a_len <= b_len
}

/// The decimal digit character for `d`.
pub open spec fn digit_char(d: nat) -> char {
    if d == 0 {
        '0'
    } else if d == 1 {
        '1'
    } else if d == 2 {
        '2'
    } else if d == 3 {
        '3'
    } else if d == 4 {
        '4'
    } else if d == 5 {
        '5'
    } else if d == 6 {
        '6'
    } else if d == 7 {
        '7'
    } else if d == 8 {
        '8'
    } else {
        '9'
    }
}

/// The decimal notation of `n`, without sign or leading zeros.
pub open spec fn spec_dec(n: nat) -> Seq<char>
    decreases n,
{
    if n < 10 {
        seq![digit_char(n)]
    } else {
        spec_dec(n / 10).push(digit_char(n % 10))
    }
}

/// The decimal notation of `n`, a `-` sign first when negative.
pub open spec fn spec_dec_int(n: int) -> Seq<char> {
    if n < 0 {
        seq!['-'] + spec_dec((-n) as nat)
    } else {
        spec_dec(n as nat)
    }
}

fn digit_str(d: u64) -> (r: String)
    requires
        d < 10,
    ensures
        r@ == seq![digit_char(d as nat)],
{
    let s = "0123456789";
    proof {
        reveal_strlit("0123456789");
    }
    let r = s.substring_char(d as usize, d as usize + 1).to_owned();
    proof {
        assert(r@ =~= seq![digit_char(d as nat)]);
    }
    r
}

/// The decimal notation of `n`.
pub fn u64_to_dec(n: u64) -> (r: String)
    ensures
        r@ == spec_dec(n as nat),
    decreases n,
{
    if n < 10 {
        digit_str(n)
    } else {
        let mut r = u64_to_dec(n / 10);
        let d = digit_str(n % 10);
        r.append(d.as_str());
        proof {
            assert(r@ =~= spec_dec(n as nat));
        }
        r
    }
}

/// The decimal notation of `n`, signed.
pub fn i64_to_dec(n: i64) -> (r: String)
    requires
        n > i64::MIN,
    ensures
        r@ == spec_dec_int(n as int),
{
    if n < 0 {
        let mut r = "-".to_owned();
        let d = u64_to_dec((-n) as u64);
        r.append(d.as_str());
        proof {
            reveal_strlit("-");
            assert(r@ =~= spec_dec_int(n as int));
        }
        r
    } else {
        u64_to_dec(n as u64)
    }
}

/// `s` with every `/` replaced by `-`.
pub fn replace_slash_dash(s: &str) -> (r: String)
    ensures
        r@ == s@.map_values(|c: char| if c == '/' { '-' } else { c }),
{
    let len = s.unicode_len();
    let mut r = String::new();
    let mut i: usize = 0;
    while i < len
        invariant
            i <= len,
            len == s@.len(),
            r@ == s@.take(i as int).map_values(|c: char| if c == '/' { '-' } else { c }),
        decreases len - i,
    {
        let c = s.get_char(i);
        if c == '/' {
            r.append("-");
            proof {
                reveal_strlit("-");
            }
        } else {
            let piece = s.substring_char(i, i + 1);
            r.append(piece);
        }
        proof {
            assert(r@ =~= s@.take(i as int + 1).map_values(
                |c: char| if c == '/' { '-' } else { c },
            ));
        }
        i = i + 1;
    }
    proof {
        assert(s@.take(len as int) =~= s@);
    }
    r
}

/// An owned copy of the characters of `s` from `from` (inclusive) to `to`
/// (exclusive).
pub fn substring(s: &str, from: usize, to: usize) -> (r: String)
    requires
        from <= to <= s@.len(),
    ensures
        r@ == s@.subrange(from as int, to as int),
{
    s.substring_char(from, to).to_owned()
}

} // verus!
