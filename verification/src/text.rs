//! Verified string building blocks shared by the resolver, the discovery
//! table and the dispatch report: character-level conversions, decimal
//! rendering of ports and counts, and scans over character sequences.

use vstd::prelude::*;

verus! {

/// The characters of a string slice, as an executable vector.
pub fn str_chars(s: &str) -> (v: Vec<char>)
    ensures
        v@ == s@,
{
    let n = s.unicode_len();
    let mut v: Vec<char> = Vec::new();
    let mut i: usize = 0;
    while i < n
        invariant
            n == s@.len(),
            i <= n,
            v@ == s@.subrange(0, i as int),
        decreases n - i,
    {
        v.push(s.get_char(i));
        i = i + 1;
        proof {
            assert(v@ =~= s@.subrange(0, i as int));
        }
    }
    proof {
        assert(v@ =~= s@);
    }
    v
}

/// Relies on `String`'s `FromIterator<char>` impl from std: collecting a
/// sequence of characters yields the string of exactly those characters,
/// which is what a string's view denotes.
#[verifier::external_body]
pub fn chars_string(v: &Vec<char>) -> (s: String)
    ensures
        s@ == v@,
{
    v.iter().collect()
}

/// Whether `c` is an ASCII decimal digit.
pub open spec fn is_digit(c: char) -> bool {
    '0' <= c && c <= '9'
}

/// Every character of `s` is an ASCII decimal digit (vacuously true of the
/// empty sequence).
pub open spec fn all_digits(s: Seq<char>) -> bool {
    forall|i: int| 0 <= i < s.len() ==> is_digit(#[trigger] s[i])
}

/// Whether `c` occurs in `s`.
pub open spec fn contains_char(s: Seq<char>, c: char) -> bool {
    exists|i: int| 0 <= i < s.len() && s[i] == c
}

/// Index of the last occurrence of `c` in `s`, or -1 if `c` does not occur.
pub open spec fn last_index_of(s: Seq<char>, c: char) -> int
    decreases s.len(),
{
    if s.len() == 0 {
        -1
    } else if s[s.len() - 1] == c {
        s.len() - 1
    } else {
        last_index_of(s.drop_last(), c)
    }
}

/// `last_index_of` is exactly the last occurrence: nonnegative iff `c`
/// occurs, and then no later position holds `c`.
pub proof fn lemma_last_index_of(s: Seq<char>, c: char)
    ensures
        -1 <= last_index_of(s, c) < s.len(),
        contains_char(s, c) <==> 0 <= last_index_of(s, c),
        0 <= last_index_of(s, c) ==> s[last_index_of(s, c)] == c,
        forall|j: int| last_index_of(s, c) < j < s.len() ==> s[j] != c,
    decreases s.len(),
{
    if s.len() > 0 {
        if s[s.len() - 1] == c {
            assert(contains_char(s, c));
        } else {
            lemma_last_index_of(s.drop_last(), c);
            assert(forall|i: int| 0 <= i < s.len() - 1 ==> s[i] == #[trigger] s.drop_last()[i]);
            if contains_char(s, c) {
                let i = choose|i: int| 0 <= i < s.len() && s[i] == c;
                assert(i < s.len() - 1);
                assert(s.drop_last()[i] == c);
                assert(contains_char(s.drop_last(), c));
            }
            if contains_char(s.drop_last(), c) {
                let i = choose|i: int|
                    0 <= i < s.drop_last().len() && s.drop_last()[i] == c;
                assert(s[i] == c);
                assert(contains_char(s, c));
            }
            let li = last_index_of(s, c);
            assert(li == last_index_of(s.drop_last(), c));
            assert forall|j: int| li < j < s.len() implies s[j] != c by {
                if j < s.len() - 1 {
                    assert(s.drop_last()[j] != c);
                    assert(s[j] == s.drop_last()[j]);
                } else {
                    assert(j == s.len() - 1);
                }
            }
        }
    }
}

/// Index of the last occurrence of `c`, executably.
pub fn find_last(v: &Vec<char>, c: char) -> (r: Option<usize>)
    ensures
        match r {
            Some(i) => i < v@.len() && last_index_of(v@, c) == i as int,
            None => last_index_of(v@, c) == -1,
        },
{
    let mut i: usize = v.len();
    proof {
        assert(v@.subrange(0, v@.len() as int) =~= v@);
    }
    while i > 0
        invariant
            i <= v@.len(),
            last_index_of(v@, c) == last_index_of(v@.subrange(0, i as int), c),
        decreases i,
    {
        proof {
            assert(v@.subrange(0, i as int).drop_last() =~= v@.subrange(0, i - 1));
        }
        if v[i - 1] == c {
            proof {
                assert(v@.subrange(0, i as int)[i - 1] == v@[i - 1]);
            }
            return Some(i - 1);
        }
        i = i - 1;
    }
    None
}

/// Whether every character of `v` from position `from` on is a digit.
pub fn digits_from(v: &Vec<char>, from: usize) -> (b: bool)
    requires
        from <= v@.len(),
    ensures
        b == all_digits(v@.subrange(from as int, v@.len() as int)),
{
    let mut i: usize = from;
    while i < v.len()
        invariant
            from <= i <= v@.len(),
            forall|j: int| from <= j < i ==> is_digit(#[trigger] v@[j]),
        decreases v@.len() - i,
    {
        let c = v[i];
        if !('0' <= c && c <= '9') {
            proof {
                assert(v@.subrange(from as int, v@.len() as int)[i - from] == v@[i as int]);
            }
            return false;
        }
        i = i + 1;
    }
    proof {
        assert forall|j: int| 0 <= j < v@.len() - from implies is_digit(
            #[trigger] v@.subrange(from as int, v@.len() as int)[j],
        ) by {
            assert(v@.subrange(from as int, v@.len() as int)[j] == v@[from + j]);
        }
    }
    true
}

/// Whether `p` is a prefix of `v`.
pub fn starts_with(v: &Vec<char>, p: &str) -> (b: bool)
    ensures
        b == p@.is_prefix_of(v@),
{
    let n = p.unicode_len();
    if v.len() < n {
        return false;
    }
    let mut i: usize = 0;
    while i < n
        invariant
            n == p@.len(),
            n <= v@.len(),
            i <= n,
            forall|j: int| 0 <= j < i ==> v@[j] == #[trigger] p@[j],
        decreases n - i,
    {
        if v[i] != p.get_char(i) {
            return false;
        }
        i = i + 1;
    }
    proof {
        assert(v@.subrange(0, n as int) =~= p@);
    }
    true
}

/// `s` with every trailing occurrence of `c` removed.
pub open spec fn trim_end(s: Seq<char>, c: char) -> Seq<char>
    decreases s.len(),
{
    if s.len() > 0 && s[s.len() - 1] == c {
        trim_end(s.drop_last(), c)
    } else {
        s
    }
}

/// `trim_end` keeps exactly the prefix before the trailing run of `c`.
pub proof fn lemma_trim_end_is_prefix(s: Seq<char>, c: char, k: int)
    requires
        0 <= k <= s.len(),
        forall|j: int| k <= j < s.len() ==> s[j] == c,
        k == 0 || s[k - 1] != c,
    ensures
        trim_end(s, c) == s.subrange(0, k),
    decreases s.len(),
{
    if s.len() > 0 && s[s.len() - 1] == c {
        assert(forall|i: int| 0 <= i < s.len() - 1 ==> s[i] == #[trigger] s.drop_last()[i]);
        lemma_trim_end_is_prefix(s.drop_last(), c, k);
        assert(s.drop_last().subrange(0, k) =~= s.subrange(0, k));
    } else {
        assert(k == s.len());
        assert(s.subrange(0, k) =~= s);
    }
}

/// The characters of `v` with every trailing occurrence of `c` removed.
pub fn trim_end_chars(v: &Vec<char>, c: char) -> (r: Vec<char>)
    ensures
        r@ == trim_end(v@, c),
{
    let mut end: usize = v.len();
    while end > 0 && v[end - 1] == c
        invariant
            end <= v@.len(),
            forall|j: int| end <= j < v@.len() ==> v@[j] == c,
        decreases end,
    {
        end = end - 1;
    }
    proof {
        lemma_trim_end_is_prefix(v@, c, end as int);
    }
    prefix_chars(v, end)
}

/// The first `end` characters of `v`.
pub fn prefix_chars(v: &Vec<char>, end: usize) -> (r: Vec<char>)
    requires
        end <= v@.len(),
    ensures
        r@ == v@.subrange(0, end as int),
{
    let mut r: Vec<char> = Vec::new();
    let mut i: usize = 0;
    while i < end
        invariant
            end <= v@.len(),
            i <= end,
            r@ == v@.subrange(0, i as int),
        decreases end - i,
    {
        r.push(v[i]);
        i = i + 1;
        proof {
            assert(r@ =~= v@.subrange(0, i as int));
        }
    }
    r
}

/// The characters of `v` from `from` to `to`.
pub fn slice_chars(v: &Vec<char>, from: usize, to: usize) -> (r: Vec<char>)
    requires
        from <= to <= v@.len(),
    ensures
        r@ == v@.subrange(from as int, to as int),
{
    let mut r: Vec<char> = Vec::new();
    let mut i: usize = from;
    while i < to
        invariant
            from <= i <= to <= v@.len(),
            r@ == v@.subrange(from as int, i as int),
        decreases to - i,
    {
        r.push(v[i]);
        i = i + 1;
        proof {
            assert(r@ =~= v@.subrange(from as int, i as int));
        }
    }
    r
}

/// Append the characters of `p` to `out`.
pub fn append_str(out: &mut Vec<char>, p: &str)
    ensures
        final(out)@ == old(out)@ + p@,
{
    let n = p.unicode_len();
    let mut i: usize = 0;
    while i < n
        invariant
            n == p@.len(),
            i <= n,
            out@ == old(out)@ + p@.subrange(0, i as int),
        decreases n - i,
    {
        out.push(p.get_char(i));
        i = i + 1;
        proof {
            assert(old(out)@ + p@.subrange(0, i as int) =~= out@);
        }
    }
    proof {
        assert(old(out)@ + p@.subrange(0, n as int) =~= old(out)@ + p@);
    }
}

/// Append the characters of `p` to `out`.
pub fn append_chars(out: &mut Vec<char>, p: &Vec<char>)
    ensures
        final(out)@ == old(out)@ + p@,
{
    let mut i: usize = 0;
    while i < p.len()
        invariant
            i <= p@.len(),
            out@ == old(out)@ + p@.subrange(0, i as int),
        decreases p@.len() - i,
    {
        out.push(p[i]);
        i = i + 1;
        proof {
            assert(old(out)@ + p@.subrange(0, i as int) =~= out@);
        }
    }
    proof {
        assert(old(out)@ + p@.subrange(0, p@.len() as int) =~= old(out)@ + p@);
    }
}

/// The decimal digit character for `d`.
pub open spec fn digit_char(d: nat) -> char {
    if d == 0 {
        '0'
    } else if d == 1 {
        '1'
    } else if d == 2 {
        '2'
    } else if d == 3 {
        '3'
    } else if d == 4 {
        '4'
    } else if d == 5 {
        '5'
    } else if d == 6 {
        '6'
    } else if d == 7 {
        '7'
    } else if d == 8 {
        '8'
    } else {
        '9'
    }
}

/// The usual decimal rendering of `n`, with no leading zeros (except for 0
/// itself).
pub open spec fn dec_rep(n: nat) -> Seq<char>
    decreases n,
{
    if n < 10 {
        seq![digit_char(n)]
    } else {
        dec_rep(n / 10) + seq![digit_char(n % 10)]
    }
}

/// Append the decimal rendering of `n` to `out`.
pub fn push_dec(n: u64, out: &mut Vec<char>)
    ensures
        final(out)@ == old(out)@ + dec_rep(n as nat),
    decreases n,
{
    if n < 10 {
        let c: char = match n {
            0 => '0',
            1 => '1',
            2 => '2',
            3 => '3',
            4 => '4',
            5 => '5',
            6 => '6',
            7 => '7',
            8 => '8',
            _ => '9',
        };
        assert(c == digit_char(n as nat));
        out.push(c);
        proof {
            assert(out@ =~= old(out)@ + dec_rep(n as nat));
        }
    } else {
        push_dec(n / 10, out);
        let d = n % 10;
        let c: char = match d {
            0 => '0',
            1 => '1',
            2 => '2',
            3 => '3',
            4 => '4',
            5 => '5',
            6 => '6',
            7 => '7',
            8 => '8',
            _ => '9',
        };
        assert(c == digit_char((n % 10) as nat));
        out.push(c);
        proof {
            assert(out@ =~= old(out)@ + dec_rep(n as nat));
        }
    }
}

/// `s` with a tab inserted after every newline, so a multi-line body stays
/// within its column of a tab-separated table.
pub open spec fn tab_indent(s: Seq<char>) -> Seq<char>
    decreases s.len(),
{
    if s.len() == 0 {
        s
    } else if s[0] == '\n' {
        seq!['\n', '\t'] + tab_indent(s.drop_first())
    } else {
        seq![s[0]] + tab_indent(s.drop_first())
    }
}

/// `tab_indent` seen from the back: indenting one more character appends its
/// expansion.
proof fn lemma_tab_indent_snoc(s: Seq<char>, c: char)
    ensures
        tab_indent(s.push(c)) == tab_indent(s) + (if c == '\n' {
            seq!['\n', '\t']
        } else {
            seq![c]
        }),
    decreases s.len(),
{
    let exp = if c == '\n' {
        seq!['\n', '\t']
    } else {
        seq![c]
    };
    if s.len() == 0 {
        assert(s.push(c)[0] == c);
        assert(s.push(c).drop_first() =~= s);
        assert(tab_indent(s) == s);
        assert(tab_indent(s.push(c)) == exp + tab_indent(s));
        assert(exp + s =~= s + exp);
    } else {
        lemma_tab_indent_snoc(s.drop_first(), c);
        assert(s.push(c)[0] == s[0]);
        assert(s.push(c).drop_first() =~= s.drop_first().push(c));
        let head = if s[0] == '\n' {
            seq!['\n', '\t']
        } else {
            seq![s[0]]
        };
        assert(tab_indent(s.push(c)) == head + (tab_indent(s.drop_first()) + exp));
        assert(head + (tab_indent(s.drop_first()) + exp) =~= (head + tab_indent(s.drop_first()))
            + exp);
    }
}

/// Append `s` to `out` with a tab inserted after every newline.
#[verifier::loop_isolation(false)]
pub fn append_tab_indent(out: &mut Vec<char>, s: &str)
    ensures
        final(out)@ == old(out)@ + tab_indent(s@),
{
    let chars = str_chars(s);
    let mut i: usize = 0;
    proof {
        assert(s@.subrange(0, 0) =~= Seq::<char>::empty());
        assert(old(out)@ + tab_indent(s@.subrange(0, 0)) =~= old(out)@);
    }
    while i < chars.len()
        invariant
            i <= chars@.len(),
            out@ == old(out)@ + tab_indent(s@.subrange(0, i as int)),
        decreases chars@.len() - i,
    {
        let c = chars[i];
        out.push(c);
        if c == '\n' {
            out.push('\t');
        }
        proof {
            lemma_tab_indent_snoc(s@.subrange(0, i as int), s@[i as int]);
            assert(s@.subrange(0, i + 1) =~= s@.subrange(0, i as int).push(s@[i as int]));
            assert(out@ =~= old(out)@ + tab_indent(s@.subrange(0, i + 1)));
        }
        i = i + 1;
    }
    proof {
        assert(s@.subrange(0, s@.len() as int) =~= s@);
    }
}

/// Index of the first occurrence of `c` in `s`, or `s.len()` if `c` does not
/// occur.
pub open spec fn first_index_of(s: Seq<char>, c: char) -> int
    decreases s.len(),
{
    if s.len() == 0 {
        0
    } else if s[0] == c {
        0
    } else {
        1 + first_index_of(s.drop_first(), c)
    }
}

/// `first_index_of` stays within the sequence.
pub proof fn lemma_first_index_le_len(s: Seq<char>, c: char)
    ensures
        0 <= first_index_of(s, c) <= s.len(),
    decreases s.len(),
{
    if s.len() > 0 && s[0] != c {
        lemma_first_index_le_len(s.drop_first(), c);
    }
}

/// A position with no earlier occurrence of `c`, holding `c` or at the end,
/// is the first index of `c`.
pub proof fn lemma_first_index_characterization(s: Seq<char>, c: char, k: int)
    requires
        0 <= k <= s.len(),
        forall|j: int| 0 <= j < k ==> s[j] != c,
        k == s.len() || s[k] == c,
    ensures
        first_index_of(s, c) == k,
    decreases s.len(),
{
    if s.len() > 0 && k > 0 {
        assert(forall|j: int| 0 <= j < s.len() - 1 ==> s.drop_first()[j] == #[trigger] s[j + 1]);
        lemma_first_index_characterization(s.drop_first(), c, k - 1);
    }
}

/// Index of the first occurrence of `c`, executably; the vector's length
/// when `c` does not occur.
pub fn find_first(v: &Vec<char>, c: char) -> (r: usize)
    ensures
        r as int == first_index_of(v@, c),
        r <= v@.len(),
{
    let mut i: usize = 0;
    while i < v.len() && v[i] != c
        invariant
            i <= v@.len(),
            forall|j: int| 0 <= j < i ==> v@[j] != c,
        decreases v@.len() - i,
    {
        i = i + 1;
    }
    proof {
        lemma_first_index_characterization(v@, c, i as int);
    }
    i
}

/// The decimal rendering of `n`, as a string.
pub fn dec_string(n: u64) -> (s: String)
    ensures
        s@ == dec_rep(n as nat),
{
    let mut v: Vec<char> = Vec::new();
    push_dec(n, &mut v);
    chars_string(&v)
}

} // verus!
