//! Text building blocks: substring search, decimal rendering, joining and
//! blank detection, each with a mathematical model over `Seq<char>`.
use vstd::prelude::*;

verus! {

/// `needle` occurs in `hay` starting at character index `i`.
pub open spec fn occurs_at(hay: Seq<char>, needle: Seq<char>, i: int) -> bool {
    &&& 0 <= i
    &&& i + needle.len() <= hay.len()
    &&& hay.subrange(i, i + needle.len()) == needle
}

/// `needle` occurs somewhere in `hay` (what `str::contains` answers for a `&str` pattern).
pub open spec fn contains_text(hay: Seq<char>, needle: Seq<char>) -> bool {
    exists|i: int| occurs_at(hay, needle, i)
}

/// The characters of `s`, in order.
pub fn str_chars(s: &str) -> (v: Vec<char>)
    ensures
        v@ == s@,
{
    let n = s.unicode_len();
    let mut v: Vec<char> = Vec::new();
    let mut i: usize = 0;
    while i < n
        invariant
            n == s@.len(),
            i <= n,
            v@ == s@.subrange(0, i as int),
        decreases n - i,
    {
        let c = s.get_char(i);
        v.push(c);
        i = i + 1;
        assert(v@ =~= s@.subrange(0, i as int));
    }
    assert(v@ =~= s@);
    v
}

/// Whether `needle[..]` matches `hay` at position `start`.
fn matches_at(hay: &Vec<char>, needle: &Vec<char>, start: usize) -> (b: bool)
    requires
        start + needle@.len() <= hay@.len(),
    ensures
        b == occurs_at(hay@, needle@, start as int),
{
    let m = needle.len();
    let hl = hay.len();
    let mut j: usize = 0;
    while j < m
        invariant
            m == needle@.len(),
            hl == hay@.len(),
            start + m <= hl,
            j <= m,
            forall|t: int| 0 <= t < j ==> hay@[start + t] == needle@[t],
        decreases m - j,
    {
        if hay[start + j] != needle[j] {
            assert(!occurs_at(hay@, needle@, start as int)) by {
                if occurs_at(hay@, needle@, start as int) {
                    assert(hay@.subrange(start as int, start + m)[j as int] == hay@[start + j]);
                }
            }
            return false;
        }
        j = j + 1;
    }
    assert(hay@.subrange(start as int, start + m) =~= needle@);
    true
}

/// Whether `needle` occurs in `hay`.
pub fn text_contains(hay: &str, needle: &str) -> (b: bool)
    ensures
        b == contains_text(hay@, needle@),
{
    let h = str_chars(hay);
    let nd = str_chars(needle);
    let hl = h.len();
    let nl = nd.len();
    if nl > hl {
        return false;
    }
    if nl == 0 {
        assert(h@.subrange(0, 0) =~= nd@);
        assert(occurs_at(h@, nd@, 0));
        return true;
    }
    let mut i: usize = 0;
    while i <= hl - nl
        invariant
            hl == h@.len(),
            nl == nd@.len(),
            h@ == hay@,
            nd@ == needle@,
            0 < nl <= hl,
            i <= hl - nl + 1,
            forall|k: int| 0 <= k < i ==> !occurs_at(h@, nd@, k),
        decreases hl - i,
    {
        if matches_at(&h, &nd, i) {
            return true;
        }
        i = i + 1;
    }
    false
}

/// The character of a decimal digit.
pub open spec fn digit_char(d: nat) -> char {
    if d == 0 {
        '0'
    } else if d == 1 {
        '1'
    } else if d == 2 {
        '2'
    } else if d == 3 {
        '3'
    } else if d == 4 {
        '4'
    } else if d == 5 {
        '5'
    } else if d == 6 {
        '6'
    } else if d == 7 {
        '7'
    } else if d == 8 {
        '8'
    } else {
        '9'
    }
}

/// The decimal rendering of `n` (what `{}` prints for an unsigned integer).
pub open spec fn decimal(n: nat) -> Seq<char>
    decreases n,
{
    if n < 10 {
        seq![digit_char(n)]
    } else {
        decimal(n / 10) + seq![digit_char(n % 10)]
    }
}

fn digit_str(d: u64) -> (s: &'static str)
    requires
        d < 10,
    ensures
        s@ == seq![digit_char(d as nat)],
{
    if d == 0 {
        proof { reveal_strlit("0"); }
        "0"
    } else if d == 1 {
        proof { reveal_strlit("1"); }
        "1"
    } else if d == 2 {
        proof { reveal_strlit("2"); }
        "2"
    } else if d == 3 {
        proof { reveal_strlit("3"); }
        "3"
    } else if d == 4 {
        proof { reveal_strlit("4"); }
        "4"
    } else if d == 5 {
        proof { reveal_strlit("5"); }
        "5"
    } else if d == 6 {
        proof { reveal_strlit("6"); }
        "6"
    } else if d == 7 {
        proof { reveal_strlit("7"); }
        "7"
    } else if d == 8 {
        proof { reveal_strlit("8"); }
        "8"
    } else {
        proof { reveal_strlit("9"); }
        "9"
    }
}

/// The value of a decimal digit character.
pub open spec fn digit_value(c: char) -> int {
    (c as int) - ('0' as int)
}

/// The number that a string of decimal digits denotes.
pub open spec fn digits_value(s: Seq<char>) -> int
    decreases s.len(),
{
    if s.len() == 0 {
        0
    } else {
        digits_value(s.drop_last()) * 10 + digit_value(s.last())
    }
}

/// The decimal rendering of `n` is a non-empty string of the digits `0`-`9`
/// that denotes `n`, with no leading zero unless it is `0` itself.
pub proof fn lemma_decimal_denotes(n: nat)
    ensures
        decimal(n).len() >= 1,
        forall|i: int| 0 <= i < decimal(n).len() ==> '0' <= #[trigger] decimal(n)[i] <= '9',
        digits_value(decimal(n)) == n,
        decimal(n).len() > 1 ==> decimal(n)[0] != '0',
    decreases n,
{
    let d = n % 10;
    assert(digit_value(digit_char(d)) == d);
    if n >= 10 {
        lemma_decimal_denotes(n / 10);
        let s = decimal(n);
        assert(s.drop_last() =~= decimal(n / 10));
        assert(s.last() == digit_char(d));
        assert(digits_value(s) == digits_value(decimal(n / 10)) * 10 + d);
        assert(n == (n / 10) * 10 + d);
        assert forall|i: int| 0 <= i < s.len() implies '0' <= #[trigger] s[i] <= '9' by {
            if i < s.len() - 1 {
                assert(s[i] == decimal(n / 10)[i]);
            }
        }
        assert(s[0] == decimal(n / 10)[0]);
        if decimal(n / 10).len() == 1 {
            let t = decimal(n / 10);
            assert(t.drop_last() =~= Seq::<char>::empty());
            assert(digits_value(t.drop_last()) == 0);
            assert(t.last() == t[0]);
            assert(digits_value(t) == digit_value(t[0]));
        }
    } else {
        assert(decimal(n).drop_last() =~= Seq::<char>::empty());
        assert(digits_value(decimal(n).drop_last()) == 0);
        assert(decimal(n).last() == digit_char(d));
    }
}

/// Different numbers have different decimal renderings.
pub proof fn lemma_decimal_injective(a: nat, b: nat)
    ensures
        decimal(a) == decimal(b) ==> a == b,
{
    lemma_decimal_denotes(a);
    lemma_decimal_denotes(b);
}

/// Appends the decimal rendering of `n` to `out`.
pub fn push_decimal(out: &mut String, n: u64)
    ensures
        final(out)@ == old(out)@ + decimal(n as nat),
    decreases n,
{
    if n >= 10 {
        push_decimal(out, n / 10);
    }
    out.append(digit_str(n % 10));
    assert(final(out)@ =~= old(out)@ + decimal(n as nat));
}

/// The decimal rendering of `n` as a new string.
pub fn decimal_string(n: u64) -> (s: String)
    ensures
        s@ == decimal(n as nat),
{
    let mut s = String::new();
    push_decimal(&mut s, n);
    assert(s@ =~= decimal(n as nat));
    s
}

/// The parts separated by `sep` (what `[String]::join` produces).
pub open spec fn join(parts: Seq<Seq<char>>, sep: Seq<char>) -> Seq<char>
    decreases parts.len(),
{
    if parts.len() == 0 {
        Seq::empty()
    } else if parts.len() == 1 {
        parts[0]
    } else {
        join(parts.drop_last(), sep) + sep + parts.last()
    }
}

/// The character sequences of a list of strings.
pub open spec fn texts(v: Seq<String>) -> Seq<Seq<char>> {
    v.map_values(|s: String| s@)
}

/// The strings of `parts` separated by `sep`.
pub fn join_strings(parts: &Vec<String>, sep: &str) -> (res: String)
    ensures
        res@ == join(texts(parts@), sep@),
{
    let mut res = String::new();
    let n = parts.len();
    let ghost all = texts(parts@);
    let mut i: usize = 0;
    while i < n
        invariant
            n == parts@.len(),
            all == texts(parts@),
            i <= n,
            res@ == join(all.take(i as int), sep@),
        decreases n - i,
    {
        if i != 0 {
            res.append(sep);
        }
        res.append(parts[i].as_str());
        assert(all.take(i + 1).drop_last() =~= all.take(i as int));
        assert(all.take(i + 1).last() == parts@[i as int]@);
        if i == 0 {
            assert(res@ =~= join(all.take(1), sep@));
        }
        i = i + 1;
    }
    assert(all.take(n as int) =~= all);
    res
}

/// The characters that carry the Unicode `White_Space` property (what
/// `char::is_whitespace` answers).
pub open spec fn white_space(c: char) -> bool {
    ||| ('\u{9}' <= c && c <= '\u{d}')
    ||| c == ' '
    ||| c == '\u{85}'
    ||| c == '\u{a0}'
    ||| c == '\u{1680}'
    ||| ('\u{2000}' <= c && c <= '\u{200a}')
    ||| c == '\u{2028}'
    ||| c == '\u{2029}'
    ||| c == '\u{202f}'
    ||| c == '\u{205f}'
    ||| c == '\u{3000}'
}

/// Whether `c` is a white-space character.
pub fn is_white_space(c: char) -> (b: bool)
    ensures
        b == white_space(c),
{
    ('\u{9}' <= c && c <= '\u{d}') || c == ' ' || c == '\u{85}' || c == '\u{a0}' || c
        == '\u{1680}' || ('\u{2000}' <= c && c <= '\u{200a}') || c == '\u{2028}' || c
        == '\u{2029}' || c == '\u{202f}' || c == '\u{205f}' || c == '\u{3000}'
}

/// Every character of `s` is white space, so trimming `s` leaves nothing.
pub open spec fn blank(s: Seq<char>) -> bool {
    forall|i: int| 0 <= i < s.len() ==> white_space(#[trigger] s[i])
}

/// Whether `s.trim()` is empty.
pub fn is_blank(s: &str) -> (b: bool)
    ensures
        b == blank(s@),
{
    let cs = str_chars(s);
    let n = cs.len();
    let mut i: usize = 0;
    while i < n
        invariant
            n == cs@.len(),
            cs@ == s@,
            i <= n,
            forall|k: int| 0 <= k < i ==> white_space(#[trigger] cs@[k]),
        decreases n - i,
    {
        if !is_white_space(cs[i]) {
            return false;
        }
        i = i + 1;
    }
    true
}

} // verus!
