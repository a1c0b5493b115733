//! Character- and string-level helpers: whitespace trimming, searching,
//! prefix/suffix tests, and decimal conversion, with exact specifications.

use vstd::prelude::*;

verus! {

/// ASCII whitespace, the only whitespace this server recognises.
pub open spec fn spec_is_space(c: char) -> bool {
    c == ' ' || c == '\t' || c == '\r' || c == '\n'
}

/// Executable counterpart of `spec_is_space`.
pub fn is_space(c: char) -> (r: bool)
    ensures
        r == spec_is_space(c),
{
    c == ' ' || c == '\t' || c == '\r' || c == '\n'
}

/// The sequence with leading whitespace removed.
pub open spec fn spec_ltrim(s: Seq<char>) -> Seq<char>
    decreases s.len(),
{
    if s.len() > 0 && spec_is_space(s[0]) {
        spec_ltrim(s.drop_first())
    } else {
        s
    }
}

/// The sequence with trailing whitespace removed.
pub open spec fn spec_rtrim(s: Seq<char>) -> Seq<char>
    decreases s.len(),
{
    if s.len() > 0 && spec_is_space(s[s.len() - 1]) {
        spec_rtrim(s.drop_last())
    } else {
        s
    }
}

/// The sequence with whitespace removed from both ends.
pub open spec fn spec_trim(s: Seq<char>) -> Seq<char> {
    spec_rtrim(spec_ltrim(s))
}

proof fn lemma_ltrim_at(s: Seq<char>, i: int)
    requires
        0 <= i <= s.len(),
        forall|k: int| 0 <= k < i ==> spec_is_space(s[k]),
        i == s.len() || !spec_is_space(s[i]),
    ensures
        spec_ltrim(s) == s.subrange(i, s.len() as int),
    decreases i,
{
    if i == 0 {
        assert(spec_ltrim(s) =~= s.subrange(0, s.len() as int)) by {
            if s.len() > 0 && spec_is_space(s[0]) {
                assert(!spec_is_space(s[0]));
            }
            assert(s =~= s.subrange(0, s.len() as int));
        }
    } else {
        assert(spec_is_space(s[0]));
        let t = s.drop_first();
        lemma_ltrim_at(t, i - 1);
        assert(t.subrange(i - 1, t.len() as int) =~= s.subrange(i, s.len() as int));
    }
}

proof fn lemma_rtrim_at(s: Seq<char>, j: int)
    requires
        0 <= j <= s.len(),
        forall|k: int| j <= k < s.len() ==> spec_is_space(s[k]),
        j == 0 || !spec_is_space(s[j - 1]),
    ensures
        spec_rtrim(s) == s.subrange(0, j),
    decreases s.len() - j,
{
    if j == s.len() {
        assert(spec_rtrim(s) =~= s.subrange(0, j)) by {
            if s.len() > 0 && spec_is_space(s[s.len() - 1]) {
                assert(!spec_is_space(s[j - 1]));
            }
            assert(s =~= s.subrange(0, s.len() as int));
        }
    } else {
        assert(spec_is_space(s[s.len() - 1]));
        let t = s.drop_last();
        lemma_rtrim_at(t, j);
        assert(t.subrange(0, j) =~= s.subrange(0, j));
    }
}

/// Length of the string in characters.
pub fn str_len(s: &str) -> (n: usize)
    ensures
        n == s@.len(),
{
    s.unicode_len()
}

/// A freshly owned copy of a character range of `s`.
pub fn substr(s: &str, from: usize, to: usize) -> (r: String)
    requires
        from <= to <= s@.len(),
    ensures
        r@ == s@.subrange(from as int, to as int),
{
    s.substring_char(from, to).to_owned()
}

/// Equality of two string slices, by contents.
pub fn eq_str(a: &str, b: &str) -> (r: bool)
    ensures
        r == (a@ == b@),
{
    let oa = a.to_owned();
    let ob = b.to_owned();
    oa == ob
}

/// `p` is a prefix of `s`.
pub open spec fn spec_starts_with(s: Seq<char>, p: Seq<char>) -> bool {
    p.len() <= s.len() && s.subrange(0, p.len() as int) == p
}

/// `p` is a suffix of `s`.
pub open spec fn spec_ends_with(s: Seq<char>, p: Seq<char>) -> bool {
    p.len() <= s.len() && s.subrange(s.len() - p.len(), s.len() as int) == p
}

/// Executable prefix test.
pub fn starts_with_str(s: &str, p: &str) -> (r: bool)
    ensures
        r == spec_starts_with(s@, p@),
{
    let sl = s.unicode_len();
    let pl = p.unicode_len();
    if pl > sl {
        false
    } else {
        let head = s.substring_char(0, pl);
        eq_str(head, p)
    }
}

/// Executable suffix test.
pub fn ends_with_str(s: &str, p: &str) -> (r: bool)
    ensures
        r == spec_ends_with(s@, p@),
{
    let sl = s.unicode_len();
    let pl = p.unicode_len();
    if pl > sl {
        false
    } else {
        let tail = s.substring_char(sl - pl, sl);
        eq_str(tail, p)
    }
}

/// A copy of `s` with ASCII whitespace removed from both ends.
pub fn trim(s: &str) -> (r: String)
    ensures
        r@ == spec_trim(s@),
{
    let n = s.unicode_len();
    let mut i: usize = 0;
    while i < n && is_space(s.get_char(i))
        invariant
            0 <= i <= n,
            n == s@.len(),
            forall|k: int| 0 <= k < i ==> spec_is_space(s@[k]),
        decreases n - i,
    {
        i = i + 1;
    }
    proof {
        lemma_ltrim_at(s@, i as int);
    }
    let mut j: usize = n;
    while j > i && is_space(s.get_char(j - 1))
        invariant
            i <= j <= n,
            n == s@.len(),
            forall|k: int| j <= k < n ==> spec_is_space(s@[k]),
            i == s@.len() || !spec_is_space(s@[i as int]),
        decreases j,
    {
        j = j - 1;
    }
    proof {
        let lt = spec_ltrim(s@);
        lemma_rtrim_at(lt, j - i);
        assert(lt.subrange(0, j - i) =~= s@.subrange(i as int, j as int));
    }
    substr(s, i, j)
}

/// The sequence with every leading `c` removed.
pub open spec fn spec_ltrim_char(s: Seq<char>, c: char) -> Seq<char>
    decreases s.len(),
{
    if s.len() > 0 && s[0] == c {
        spec_ltrim_char(s.drop_first(), c)
    } else {
        s
    }
}

/// The sequence with every trailing `c` removed.
pub open spec fn spec_rtrim_char(s: Seq<char>, c: char) -> Seq<char>
    decreases s.len(),
{
    if s.len() > 0 && s[s.len() - 1] == c {
        spec_rtrim_char(s.drop_last(), c)
    } else {
        s
    }
}

/// The sequence with `c` removed from both ends.
pub open spec fn spec_trim_char(s: Seq<char>, c: char) -> Seq<char> {
    spec_rtrim_char(spec_ltrim_char(s, c), c)
}

proof fn lemma_ltrim_char_at(s: Seq<char>, c: char, i: int)
    requires
        0 <= i <= s.len(),
        forall|k: int| 0 <= k < i ==> s[k] == c,
        i == s.len() || s[i] != c,
    ensures
        spec_ltrim_char(s, c) == s.subrange(i, s.len() as int),
    decreases i,
{
    if i == 0 {
        assert(spec_ltrim_char(s, c) =~= s.subrange(0, s.len() as int)) by {
            assert(s =~= s.subrange(0, s.len() as int));
        }
    } else {
        let t = s.drop_first();
        lemma_ltrim_char_at(t, c, i - 1);
        assert(t.subrange(i - 1, t.len() as int) =~= s.subrange(i, s.len() as int));
    }
}

proof fn lemma_rtrim_char_at(s: Seq<char>, c: char, j: int)
    requires
        0 <= j <= s.len(),
        forall|k: int| j <= k < s.len() ==> s[k] == c,
        j == 0 || s[j - 1] != c,
    ensures
        spec_rtrim_char(s, c) == s.subrange(0, j),
    decreases s.len() - j,
{
    if j == s.len() {
        assert(spec_rtrim_char(s, c) =~= s.subrange(0, j)) by {
            assert(s =~= s.subrange(0, s.len() as int));
        }
    } else {
        let t = s.drop_last();
        lemma_rtrim_char_at(t, c, j);
        assert(t.subrange(0, j) =~= s.subrange(0, j));
    }
}

/// A copy of `s` with `c` removed from both ends.
pub fn trim_char(s: &str, c: char) -> (r: String)
    ensures
        r@ == spec_trim_char(s@, c),
{
    let n = s.unicode_len();
    let mut i: usize = 0;
    while i < n && s.get_char(i) == c
        invariant
            0 <= i <= n,
            n == s@.len(),
            forall|k: int| 0 <= k < i ==> s@[k] == c,
        decreases n - i,
    {
        i = i + 1;
    }
    proof {
        lemma_ltrim_char_at(s@, c, i as int);
    }
    let mut j: usize = n;
    while j > i && s.get_char(j - 1) == c
        invariant
            i <= j <= n,
            n == s@.len(),
            forall|k: int| j <= k < n ==> s@[k] == c,
            i == s@.len() || s@[i as int] != c,
        decreases j,
    {
        j = j - 1;
    }
    proof {
        let lt = spec_ltrim_char(s@, c);
        lemma_rtrim_char_at(lt, c, j - i);
        assert(lt.subrange(0, j - i) =~= s@.subrange(i as int, j as int));
    }
    substr(s, i, j)
}

/// A copy of `s` with every leading `c` removed.
pub fn ltrim_char_str(s: &str, c: char) -> (r: String)
    ensures
        r@ == spec_ltrim_char(s@, c),
{
    let n = s.unicode_len();
    let mut i: usize = 0;
    while i < n && s.get_char(i) == c
        invariant
            0 <= i <= n,
            n == s@.len(),
            forall|k: int| 0 <= k < i ==> s@[k] == c,
        decreases n - i,
    {
        i = i + 1;
    }
    proof {
        lemma_ltrim_char_at(s@, c, i as int);
    }
    substr(s, i, n)
}

/// The index of the first occurrence of `c` in `s`, if any.
pub fn find_char(s: &str, c: char) -> (r: Option<usize>)
    ensures
        match r {
            Some(i) => i < s@.len() && s@[i as int] == c && forall|k: int|
                0 <= k < i ==> s@[k] != c,
            None => forall|k: int| 0 <= k < s@.len() ==> s@[k] != c,
        },
{
    let n = s.unicode_len();
    let mut i: usize = 0;
    while i < n
        invariant
            0 <= i <= n,
            n == s@.len(),
            forall|k: int| 0 <= k < i ==> s@[k] != c,
        decreases n - i,
    {
        if s.get_char(i) == c {
            return Some(i);
        }
        i = i + 1;
    }
    None
}

/// Splits `s` at the first occurrence of `c`: the part before and the part
/// after the separator, which itself is dropped. `None` when `c` is absent.
pub fn split_once_char(s: &str, c: char) -> (r: Option<(String, String)>)
    ensures
        match r {
            Some(kv) => exists|i: int|
                {
                    &&& 0 <= i < s@.len()
                    &&& s@[i] == c
                    &&& (forall|k: int| 0 <= k < i ==> s@[k] != c)
                    &&& kv.0@ == s@.subrange(0, i)
                    &&& kv.1@ == s@.subrange(i + 1, s@.len() as int)
                },
            None => forall|k: int| 0 <= k < s@.len() ==> s@[k] != c,
        },
{
    match find_char(s, c) {
        Some(i) => {
            let n = s.unicode_len();
            let before = substr(s, 0, i);
            let after = substr(s, i + 1, n);
            Some((before, after))
        },
        None => None,
    }
}

/// The decimal digit for a value below ten.
pub open spec fn spec_digit_char(d: nat) -> char {
    if d == 0 {
        '0'
    } else if d == 1 {
        '1'
    } else if d == 2 {
        '2'
    } else if d == 3 {
        '3'
    } else if d == 4 {
        '4'
    } else if d == 5 {
        '5'
    } else if d == 6 {
        '6'
    } else if d == 7 {
        '7'
    } else if d == 8 {
        '8'
    } else {
        '9'
    }
}

/// The decimal rendering of `n`, most significant digit first.
pub open spec fn spec_decimal(n: nat) -> Seq<char>
    decreases n,
{
    if n < 10 {
        seq![spec_digit_char(n)]
    } else {
        spec_decimal(n / 10).push(spec_digit_char(n % 10))
    }
}

fn digit_str(d: u64) -> (r: &'static str)
    requires
        d < 10,
    ensures
        r@ =~= seq![spec_digit_char(d as nat)],
{
    proof {
        reveal_strlit("0");
        reveal_strlit("1");
        reveal_strlit("2");
        reveal_strlit("3");
        reveal_strlit("4");
        reveal_strlit("5");
        reveal_strlit("6");
        reveal_strlit("7");
        reveal_strlit("8");
        reveal_strlit("9");
    }
    if d == 0 {
        "0"
    } else if d == 1 {
        "1"
    } else if d == 2 {
        "2"
    } else if d == 3 {
        "3"
    } else if d == 4 {
        "4"
    } else if d == 5 {
        "5"
    } else if d == 6 {
        "6"
    } else if d == 7 {
        "7"
    } else if d == 8 {
        "8"
    } else {
        "9"
    }
}

/// Renders `n` in decimal.
pub fn decimal_string(n: u64) -> (r: String)
    ensures
        r@ == spec_decimal(n as nat),
    decreases n,
{
    if n < 10 {
        digit_str(n).to_owned()
    } else {
        let mut head = decimal_string(n / 10);
        head.append(digit_str(n % 10));
        proof {
            assert(head@ =~= spec_decimal(n as nat));
        }
        head
    }
}

/// A sequence that neither starts nor ends with whitespace trims to itself.
pub proof fn lemma_trim_id(s: Seq<char>)
    requires
        s.len() == 0 || (!spec_is_space(s[0]) && !spec_is_space(s[s.len() - 1])),
    ensures
        spec_trim(s) == s,
{
    assert(spec_ltrim(s) == s);
    assert(spec_rtrim(s) == s);
}

/// Every character of a decimal rendering is a digit, and there is one.
pub proof fn lemma_decimal_digits(n: nat)
    ensures
        spec_decimal(n).len() >= 1,
        forall|k: int| 0 <= k < spec_decimal(n).len() ==> spec_is_digit(#[trigger] spec_decimal(
            n,
        )[k]),
    decreases n,
{
    if n < 10 {
    } else {
        lemma_decimal_digits(n / 10);
    }
}

/// The numeric value of a digit sequence, most significant first.
pub open spec fn spec_digits_val(s: Seq<char>) -> nat
    decreases s.len(),
{
    if s.len() == 0 {
        0
    } else {
        spec_digits_val(s.drop_last()) * 10 + spec_char_digit(s.last())
    }
}

/// The value of one decimal digit character; meaningful only on digits.
pub open spec fn spec_char_digit(c: char) -> nat {
    ((c as int) - ('0' as int)) as nat
}

/// The character is a decimal digit.
pub open spec fn spec_is_digit(c: char) -> bool {
    '0' <= c && c <= '9'
}

/// Every character of the sequence is a decimal digit.
pub open spec fn spec_all_digits(s: Seq<char>) -> bool {
    forall|k: int| 0 <= k < s.len() ==> spec_is_digit(s[k])
}

/// The string parses as an unsigned decimal number: non-empty digits after an
/// optional leading `+`.
pub open spec fn spec_parses_as_uint(s: Seq<char>) -> bool {
    let d = if s.len() > 0 && s[0] == '+' {
        s.drop_first()
    } else {
        s
    };
    d.len() > 0 && spec_all_digits(d)
}

/// The value the string denotes, when `spec_parses_as_uint` holds.
pub open spec fn spec_uint_val(s: Seq<char>) -> nat {
    if s.len() > 0 && s[0] == '+' {
        spec_digits_val(s.drop_first())
    } else {
        spec_digits_val(s)
    }
}

proof fn lemma_digits_val_monotone(s: Seq<char>, i: int)
    requires
        0 <= i <= s.len(),
        spec_all_digits(s),
    ensures
        spec_digits_val(s.subrange(0, i)) <= spec_digits_val(s),
    decreases s.len() - i,
{
    if i == s.len() {
        assert(s.subrange(0, i) =~= s);
    } else {
        let t = s.subrange(0, i + 1);
        assert(t.drop_last() =~= s.subrange(0, i));
        lemma_digits_val_monotone(s, i + 1);
        assert(spec_digits_val(s.subrange(0, i)) <= spec_digits_val(t));
    }
}

fn parse_digits(s: &str, start: usize) -> (r: Option<u64>)
    requires
        start <= s@.len(),
    ensures
        ({
            let d = s@.subrange(start as int, s@.len() as int);
            match r {
                Some(v) => d.len() > 0 && spec_all_digits(d) && v == spec_digits_val(d)
                    && spec_digits_val(d) <= u64::MAX,
                None => d.len() == 0 || !spec_all_digits(d) || spec_digits_val(d) > u64::MAX,
            }
        }),
{
    let n = s.unicode_len();
    if start >= n {
        return None;
    }
    let ghost d = s@.subrange(start as int, s@.len() as int);
    let mut acc: u64 = 0;
    let mut i: usize = start;
    while i < n
        invariant
            start <= i <= n,
            n == s@.len(),
            d == s@.subrange(start as int, s@.len() as int),
            spec_all_digits(d.subrange(0, i - start)),
            acc == spec_digits_val(d.subrange(0, i - start)),
        decreases n - i,
    {
        let c = s.get_char(i);
        if !('0' <= c && c <= '9') {
            assert(!spec_is_digit(d[i - start]));
            return None;
        }
        let dv: u64 = (c as u32 as u64) - 48;
        if acc > (u64::MAX - dv) / 10 {
            proof {
                let pre = d.subrange(0, i - start + 1);
                assert(pre.drop_last() =~= d.subrange(0, i - start));
                assert(pre.last() == d[i - start]);
                assert(spec_digits_val(pre) == acc * 10 + dv);
                assert(spec_digits_val(pre) > u64::MAX);
                if spec_all_digits(d) {
                    lemma_digits_val_monotone(d, i - start + 1);
                }
            }
            return None;
        }
        proof {
            let pre = d.subrange(0, i - start + 1);
            assert(pre.drop_last() =~= d.subrange(0, i - start));
            assert(pre.last() == d[i - start]);
        }
        acc = acc * 10 + dv;
        i = i + 1;
    }
    proof {
        assert(d.subrange(0, n - start) =~= d);
    }
    Some(acc)
}

/// Parses a decimal unsigned number with an optional leading `+`.
/// Returns `Some` exactly when the string is well formed and the value fits.
pub fn parse_u64_str(s: &str) -> (r: Option<u64>)
    ensures
        match r {
            Some(v) => spec_parses_as_uint(s@) && v == spec_uint_val(s@) && spec_uint_val(s@)
                <= u64::MAX,
            None => !spec_parses_as_uint(s@) || spec_uint_val(s@) > u64::MAX,
        },
{
    let n = s.unicode_len();
    let start: usize = if n > 0 && s.get_char(0) == '+' {
        1
    } else {
        0
    };
    proof {
        if start == 1 {
            assert(s@.drop_first() =~= s@.subrange(1, s@.len() as int));
        } else {
            assert(s@ =~= s@.subrange(0, s@.len() as int));
        }
    }
    parse_digits(s, start)
}

/// Parses a `u16`, as the configuration's port numbers require.
pub fn parse_u16_str(s: &str) -> (r: Option<u16>)
    ensures
        match r {
            Some(v) => spec_parses_as_uint(s@) && v == spec_uint_val(s@) && spec_uint_val(s@)
                <= u16::MAX,
            None => !spec_parses_as_uint(s@) || spec_uint_val(s@) > u16::MAX,
        },
{
    match parse_u64_str(s) {
        Some(v) => if v <= 0xffff {
            Some(v as u16)
        } else {
            None
        },
        None => None,
    }
}

/// Parses a `usize` body or size limit.
pub fn parse_usize_str(s: &str) -> (r: Option<usize>)
    ensures
        match r {
            Some(v) => spec_parses_as_uint(s@) && v == spec_uint_val(s@) && spec_uint_val(s@)
                <= usize::MAX,
            None => !spec_parses_as_uint(s@) || spec_uint_val(s@) > usize::MAX,
        },
{
    match parse_u64_str(s) {
        Some(v) => if v <= usize::MAX as u64 {
            Some(v as usize)
        } else {
            None
        },
        None => None,
    }
}

} // verus!
