//! Verified string helpers: comparison, prefixes and suffixes, splitting and
//! decimal rendering.

use vstd::prelude::*;

verus! {

/// The index of the first `c` in `s`, or the length of `s` when there is none.
pub open spec fn first_index(s: Seq<char>, c: char) -> int
    decreases s.len(),
{
    if s.len() == 0 || s[0] == c {
        0
    } else {
        1 + first_index(s.skip(1), c)
    }
}

/// The pieces of `s` between the occurrences of `sep`; there is one more piece
/// than there are occurrences.
pub open spec fn split(s: Seq<char>, sep: char) -> Seq<Seq<char>>
    decreases s.len(),
{
    let i = first_index(s, sep);
    if 0 <= i < s.len() {
        seq![s.take(i)] + split(s.skip(i + 1), sep)
    } else {
        seq![s]
    }
}

/// `s` with every `from` replaced by `to`.
pub open spec fn replaced(s: Seq<char>, from: char, to: char) -> Seq<char> {
    s.map_values(|c: char| if c == from { to } else { c })
}

/// The decimal digit with the given value.
pub open spec fn digit(n: nat) -> char {
    if n == 0 {
        '0'
    } else if n == 1 {
        '1'
    } else if n == 2 {
        '2'
    } else if n == 3 {
        '3'
    } else if n == 4 {
        '4'
    } else if n == 5 {
        '5'
    } else if n == 6 {
        '6'
    } else if n == 7 {
        '7'
    } else if n == 8 {
        '8'
    } else {
        '9'
    }
}

/// The decimal rendering of `n`, without leading zeros.
pub open spec fn decimal(n: nat) -> Seq<char>
    decreases n,
{
    if n < 10 {
        seq![digit(n)]
    } else {
        decimal(n / 10).push(digit(n % 10))
    }
}

/// `first_index` finds the first occurrence.
pub proof fn lemma_first_index(s: Seq<char>, c: char)
    ensures
        0 <= first_index(s, c) <= s.len(),
        forall|j: int| 0 <= j < first_index(s, c) ==> s[j] != c,
        first_index(s, c) < s.len() ==> s[first_index(s, c)] == c,
    decreases s.len(),
{
    if s.len() != 0 && s[0] != c {
        let t = s.skip(1);
        lemma_first_index(t, c);
        assert forall|j: int| 0 <= j < first_index(s, c) implies s[j] != c by {
            if j > 0 {
                assert(t[j - 1] == s[j]);
            }
        }
    }
}

/// An index with the defining property is the first index.
pub proof fn lemma_first_index_unique(s: Seq<char>, c: char, i: int)
    requires
        0 <= i <= s.len(),
        forall|j: int| 0 <= j < i ==> s[j] != c,
        i < s.len() ==> s[i] == c,
    ensures
        first_index(s, c) == i,
{
    lemma_first_index(s, c);
    if i < first_index(s, c) {
        assert(s[i] != c);
    }
}

/// The characters of `s` in a vector.
pub fn chars_of(s: &str) -> (v: Vec<char>)
    ensures
        v@ == s@,
{
    let mut v: Vec<char> = Vec::new();
    for c in it: s.chars()
        invariant
            it.seq() == s@,
            v@ == s@.take(it.index()),
    {
        v.push(c);
        assert(s@.take(it.index() + 1) =~= s@.take(it.index()).push(c));
    }
    assert(s@.take(s@.len() as int) =~= s@);
    v
}

/// Whether two strings hold the same characters.
pub fn str_eq(a: &str, b: &str) -> (r: bool)
    ensures
        r == (a@ == b@),
{
    let n: usize = a.unicode_len();
    let m: usize = b.unicode_len();
    if n != m {
        return false;
    }
    let r = starts_with(a, b);
    assert(b@.is_prefix_of(a@) <==> a@ =~= b@);
    r
}

/// Whether `s` starts with `prefix`.
pub fn starts_with(s: &str, prefix: &str) -> (r: bool)
    ensures
        r == prefix@.is_prefix_of(s@),
{
    let mut rest = s.chars();
    let mut wanted = prefix.chars();
    let ghost mut i: int = 0;
    loop
        invariant
            0 <= i <= s@.len(),
            0 <= i <= prefix@.len(),
            vstd::std_specs::iter::IteratorSpec::remaining(&rest) == s@.skip(i),
            vstd::std_specs::iter::IteratorSpec::remaining(&wanted) == prefix@.skip(i),
            forall|j: int| 0 <= j < i ==> s@[j] == prefix@[j],
        decreases prefix@.len() - i,
    {
        match wanted.next() {
            None => {
                assert(prefix@.is_prefix_of(s@)) by {
                    assert(s@.take(prefix@.len() as int) =~= prefix@);
                }
                return true;
            },
            Some(w) => {
                assert(w == prefix@[i]);
                match rest.next() {
                    None => {
                        return false;
                    },
                    Some(c) => {
                        assert(c == s@[i]);
                        if c != w {
                            return false;
                        }
                        proof {
                            assert(s@.skip(i).drop_first() =~= s@.skip(i + 1));
                            assert(prefix@.skip(i).drop_first() =~= prefix@.skip(i + 1));
                            i = i + 1;
                        }
                    },
                }
            },
        }
    }
}

/// Whether `s` ends with `suffix`.
pub fn ends_with(s: &str, suffix: &str) -> (r: bool)
    ensures
        r == suffix@.is_suffix_of(s@),
{
    let n: usize = s.unicode_len();
    let m: usize = suffix.unicode_len();
    if m > n {
        return false;
    }
    let tail = s.substring_char(n - m, n);
    assert(suffix@.is_suffix_of(s@) <==> tail@ =~= suffix@);
    str_eq(tail, suffix)
}

/// What follows `prefix` in `s`, when `s` starts with it.
pub fn strip_prefix(s: &str, prefix: &str) -> (r: Option<String>)
    ensures
        r is Some <==> prefix@.is_prefix_of(s@),
        r matches Some(rest) ==> rest@ == s@.skip(prefix@.len() as int) && s@ == prefix@ + rest@,
{
    if !starts_with(s, prefix) {
        return None;
    }
    let n: usize = s.unicode_len();
    let m: usize = prefix.unicode_len();
    let rest = s.substring_char(m, n).to_owned();
    assert(rest@ =~= s@.skip(prefix@.len() as int));
    assert(s@ =~= prefix@ + rest@);
    Some(rest)
}

/// Whether `c` occurs in `s`.
pub fn contains_char(s: &str, c: char) -> (r: bool)
    ensures
        r == s@.contains(c),
{
    for d in it: s.chars()
        invariant
            it.seq() == s@,
            forall|j: int| 0 <= j < it.index() ==> s@[j] != c,
    {
        if d == c {
            assert(s@[it.index()] == c);
            return true;
        }
    }
    false
}

/// `a` followed by `b`.
pub fn concat(a: &str, b: &str) -> (r: String)
    ensures
        r@ == a@ + b@,
{
    let mut r: String = a.to_owned();
    r.append(b);
    r
}

/// `a` followed by `b` and `c`.
pub fn concat3(a: &str, b: &str, c: &str) -> (r: String)
    ensures
        r@ == a@ + b@ + c@,
{
    let mut r: String = a.to_owned();
    r.append(b);
    r.append(c);
    r
}

/// The pieces of `s` between the occurrences of `sep`.
pub fn split_on(s: &str, sep: char) -> (r: Vec<String>)
    ensures
        r.deep_view() == split(s@, sep),
{
    let cs = chars_of(s);
    let mut r: Vec<String> = Vec::new();
    let mut start: usize = 0;
    let mut i: usize = 0;
    assert(s@.skip(0) =~= s@);
    assert(r.deep_view() + split(s@, sep) =~= split(s@, sep));
    while i < cs.len()
        invariant
            cs@ == s@,
            start <= i <= cs.len(),
            forall|j: int| start <= j < i ==> s@[j] != sep,
            r.deep_view() + split(s@.skip(start as int), sep) == split(s@, sep),
        decreases cs.len() - i,
    {
        if cs[i] == sep {
            let ghost before = r.deep_view();
            let piece = s.substring_char(start, i).to_owned();
            r.push(piece);
            proof {
                let t = s@.skip(start as int);
                lemma_first_index_unique(t, sep, i - start);
                assert(t.take(i - start) =~= piece@);
                assert(t.skip(i - start + 1) =~= s@.skip(i + 1));
                assert(r.deep_view() =~= before.push(piece@));
                assert(r.deep_view() + split(s@.skip(i + 1), sep) =~= before + (seq![t.take(
                    i - start,
                )] + split(t.skip(i - start + 1), sep)));
            }
            start = i + 1;
        }
        i = i + 1;
    }
    let ghost before = r.deep_view();
    let piece = s.substring_char(start, i).to_owned();
    r.push(piece);
    proof {
        let t = s@.skip(start as int);
        lemma_first_index_unique(t, sep, t.len() as int);
        assert(t =~= piece@);
        assert(r.deep_view() =~= before + split(t, sep));
    }
    r
}

/// `s` with every `from` replaced by the single-character text `to`.
pub fn replace_char(s: &str, from: char, to: &str) -> (r: String)
    requires
        to@.len() == 1,
    ensures
        r@ == replaced(s@, from, to@[0]),
{
    let cs = chars_of(s);
    let mut r: String = String::new();
    let mut i: usize = 0;
    assert(r@ =~= replaced(s@, from, to@[0]).take(0));
    while i < cs.len()
        invariant
            cs@ == s@,
            i <= cs.len(),
            to@.len() == 1,
            r@ == replaced(s@, from, to@[0]).take(i as int),
        decreases cs.len() - i,
    {
        if cs[i] == from {
            r.append(to);
        } else {
            r.append(s.substring_char(i, i + 1));
        }
        i = i + 1;
        assert(r@ =~= replaced(s@, from, to@[0]).take(i as int));
    }
    assert(r@ =~= replaced(s@, from, to@[0]));
    r
}

/// The text of one decimal digit.
fn digit_text(n: u64) -> (r: &'static str)
    requires
        n < 10,
    ensures
        r@ == seq![digit(n as nat)],
{
    proof {
        reveal_strlit("0");
        reveal_strlit("1");
        reveal_strlit("2");
        reveal_strlit("3");
        reveal_strlit("4");
        reveal_strlit("5");
        reveal_strlit("6");
        reveal_strlit("7");
        reveal_strlit("8");
        reveal_strlit("9");
    }
    match n {
        0 => "0",
        1 => "1",
        2 => "2",
        3 => "3",
        4 => "4",
        5 => "5",
        6 => "6",
        7 => "7",
        8 => "8",
        _ => "9",
    }
}

/// The decimal rendering of `n`.
pub fn decimal_text(n: u64) -> (r: String)
    ensures
        r@ == decimal(n as nat),
    decreases n,
{
    if n < 10 {
        digit_text(n).to_owned()
    } else {
        let mut r = decimal_text(n / 10);
        r.append(digit_text(n % 10));
        assert(r@ =~= decimal(n as nat));
        r
    }
}

/// Whether `s[i..j]` lies between two separators or ends of `s`, with none inside.
pub open spec fn is_piece(s: Seq<char>, sep: char, i: int, j: int) -> bool {
    &&& 0 <= i <= j <= s.len()
    &&& i == 0 || s[i - 1] == sep
    &&& j == s.len() || s[j] == sep
    &&& forall|k: int| i <= k < j ==> #[trigger] s[k] != sep
}

/// Everything between separators is one of the pieces.
pub proof fn law_split_loses_nothing(s: Seq<char>, sep: char, i: int, j: int)
    requires
        is_piece(s, sep, i, j),
    ensures
        split(s, sep).contains(s.subrange(i, j)),
    decreases s.len(),
{
    lemma_first_index(s, sep);
    let f = first_index(s, sep);
    let pieces = split(s, sep);
    if i <= f {
        if i > 0 {
            assert(s[i - 1] != sep);
        }
        if j < f {
            assert(s[j] != sep);
        }
        if j > f {
            assert(s[f] != sep);
        }
        assert(s.subrange(i, j) =~= s.take(f));
        assert(s.take(s.len() as int) =~= s);
        assert(pieces[0] == s.subrange(i, j));
    } else {
        let t = s.skip(f + 1);
        assert forall|k: int| i - f - 1 <= k < j - f - 1 implies #[trigger] t[k] != sep by {
            assert(t[k] == s[k + f + 1]);
        }
        law_split_loses_nothing(t, sep, i - f - 1, j - f - 1);
        assert(t.subrange(i - f - 1, j - f - 1) =~= s.subrange(i, j));
        let n = choose|n: int| 0 <= n < split(t, sep).len() && split(t, sep)[n] == s.subrange(i, j);
        assert(pieces[n + 1] == s.subrange(i, j));
    }
}

/// Each of the pieces lies between separators.
pub proof fn law_split_adds_nothing(s: Seq<char>, sep: char, n: int) -> (place: (int, int))
    requires
        0 <= n < split(s, sep).len(),
    ensures
        is_piece(s, sep, place.0, place.1),
        split(s, sep)[n] == s.subrange(place.0, place.1),
    decreases s.len(),
{
    lemma_first_index(s, sep);
    let f = first_index(s, sep);
    if n == 0 {
        assert(s.subrange(0, f) =~= s.take(f));
        assert(s.take(s.len() as int) =~= s);
        (0, f)
    } else {
        let t = s.skip(f + 1);
        let (i, j) = law_split_adds_nothing(t, sep, n - 1);
        assert(s.subrange(i + f + 1, j + f + 1) =~= t.subrange(i, j));
        assert(split(s, sep)[n] == split(t, sep)[n - 1]);
        assert forall|k: int| i + f + 1 <= k < j + f + 1 implies #[trigger] s[k] != sep by {
            assert(t[k - f - 1] == s[k]);
        }
        if i > 0 {
            assert(t[i - 1] == s[i + f]);
        }
        if j < t.len() {
            assert(t[j] == s[j + f + 1]);
        }
        (i + f + 1, j + f + 1)
    }
}

/// The pieces with the separator between them.
pub open spec fn joined(pieces: Seq<Seq<char>>, sep: char) -> Seq<char>
    decreases pieces.len(),
{
    if pieces.len() == 0 {
        seq![]
    } else if pieces.len() == 1 {
        pieces[0]
    } else {
        pieces[0] + seq![sep] + joined(pieces.skip(1), sep)
    }
}

/// The pieces with the separator between them are the text again.
pub proof fn law_split_joins_back(s: Seq<char>, sep: char)
    ensures
        split(s, sep).len() > 0,
        joined(split(s, sep), sep) == s,
    decreases s.len(),
{
    lemma_first_index(s, sep);
    let f = first_index(s, sep);
    let pieces = split(s, sep);
    if f < s.len() {
        let t = s.skip(f + 1);
        law_split_joins_back(t, sep);
        assert(pieces.skip(1) =~= split(t, sep));
        assert(s.take(f) + seq![sep] + t =~= s);
    }
}

/// Replacing characters changes those and no others.
pub proof fn law_replaced_changes_one_character(s: Seq<char>, from: char, to: char, i: int)
    requires
        0 <= i < s.len(),
    ensures
        replaced(s, from, to).len() == s.len(),
        s[i] == from ==> replaced(s, from, to)[i] == to,
        s[i] != from ==> replaced(s, from, to)[i] == s[i],
{
}

/// The number that a text of decimal digits stands for.
pub open spec fn number(s: Seq<char>) -> int
    decreases s.len(),
{
    if s.len() == 0 {
        0
    } else {
        10 * number(s.drop_last()) + (s.last() as int - '0' as int)
    }
}

/// The digits of a number stand for it, and only zero starts with a zero.
pub proof fn law_decimal_reads_back(n: nat)
    ensures
        number(decimal(n)) == n,
        decimal(n).len() > 0,
        forall|i: int| 0 <= i < decimal(n).len() ==> '0' <= #[trigger] decimal(n)[i] <= '9',
        decimal(n)[0] == '0' ==> n == 0,
    decreases n,
{
    reveal_with_fuel(number, 2);
    if n < 10 {
        assert(decimal(n).drop_last() =~= seq![]);
    } else {
        law_decimal_reads_back(n / 10);
        assert(decimal(n).drop_last() =~= decimal(n / 10));
        assert(decimal(n)[0] == decimal(n / 10)[0]);
    }
}

} // verus!
