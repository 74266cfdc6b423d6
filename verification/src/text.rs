//! Character-level helpers on `&str`, stated over the string's `Seq<char>` view.

use vstd::prelude::*;

verus! {

/// Whether `c` has the Unicode `White_Space` property: the ASCII controls tab to
/// carriage return, space, next line, no-break space, ogham space mark, the spaces
/// U+2000 to U+200A, the line and paragraph separators, narrow no-break space, medium
/// mathematical space and ideographic space.
pub open spec fn spec_is_whitespace(c: char) -> bool {
    let u = c as u32;
    ||| 0x9 <= u <= 0xD
    ||| u == 0x20
    ||| u == 0x85
    ||| u == 0xA0
    ||| u == 0x1680
    ||| 0x2000 <= u <= 0x200A
    ||| u == 0x2028
    ||| u == 0x2029
    ||| u == 0x202F
    ||| u == 0x205F
    ||| u == 0x3000
}

/// Whether `c` has the Unicode `White_Space` property (what `char::is_whitespace`
/// answers).
pub fn char_is_whitespace(c: char) -> (r: bool)
    ensures
        r == spec_is_whitespace(c),
{
    let u: u32 = c as u32;
    (0x9 <= u && u <= 0xD) || u == 0x20 || u == 0x85 || u == 0xA0 || u == 0x1680 || (0x2000 <= u && u <= 0x200A)
        || u == 0x2028 || u == 0x2029 || u == 0x202F || u == 0x205F || u == 0x3000
}

/// Number of leading white-space characters of `s`.
pub open spec fn leading_ws(s: Seq<char>) -> int
    decreases s.len(),
{
    if s.len() > 0 && spec_is_whitespace(s[0]) {
        1 + leading_ws(s.drop_first())
    } else {
        0
    }
}

/// Number of trailing white-space characters of `s`.
pub open spec fn trailing_ws(s: Seq<char>) -> int
    decreases s.len(),
{
    if s.len() > 0 && spec_is_whitespace(s.last()) {
        1 + trailing_ws(s.drop_last())
    } else {
        0
    }
}

/// `s` without leading and trailing white space (`str::trim`).
pub open spec fn trimmed(s: Seq<char>) -> Seq<char> {
    let t = s.subrange(leading_ws(s), s.len() as int);
    t.subrange(0, t.len() - trailing_ws(t))
}

proof fn lemma_leading_ws(s: Seq<char>, i: int)
    requires
        0 <= i <= s.len(),
        forall|j: int| 0 <= j < i ==> spec_is_whitespace(#[trigger] s[j]),
        i == s.len() || !spec_is_whitespace(s[i]),
    ensures
        leading_ws(s) == i,
    decreases i,
{
    if i > 0 {
        assert forall|j: int| 0 <= j < i - 1 implies spec_is_whitespace(#[trigger] s.drop_first()[j]) by {
            assert(s.drop_first()[j] == s[j + 1]);
        }
        if i < s.len() {
            assert(s.drop_first()[i - 1] == s[i]);
        }
        lemma_leading_ws(s.drop_first(), i - 1);
    }
}

proof fn lemma_trailing_ws(s: Seq<char>, k: int)
    requires
        0 <= k <= s.len(),
        forall|j: int| s.len() - k <= j < s.len() ==> spec_is_whitespace(#[trigger] s[j]),
        k == s.len() || !spec_is_whitespace(s[s.len() - k - 1]),
    ensures
        trailing_ws(s) == k,
    decreases k,
{
    if k > 0 {
        let t = s.drop_last();
        assert forall|j: int| t.len() - (k - 1) <= j < t.len() implies spec_is_whitespace(#[trigger] t[j]) by {
            assert(t[j] == s[j]);
        }
        if k < s.len() {
            assert(t[t.len() - (k - 1) - 1] == s[s.len() - k - 1]);
        }
        lemma_trailing_ws(t, k - 1);
    }
}

/// `s` without leading and trailing white space.
pub fn trim(s: &str) -> (r: String)
    ensures
        r@ == trimmed(s@),
{
    let n: usize = s.unicode_len();
    let mut lo: usize = 0;
    while lo < n && char_is_whitespace(s.get_char(lo))
        invariant
            n == s@.len(),
            lo <= n,
            forall|j: int| 0 <= j < lo ==> spec_is_whitespace(#[trigger] s@[j]),
        decreases n - lo,
    {
        lo = lo + 1;
    }
    proof {
        lemma_leading_ws(s@, lo as int);
    }
    let mut hi: usize = n;
    while hi > lo && char_is_whitespace(s.get_char(hi - 1))
        invariant
            n == s@.len(),
            lo <= hi <= n,
            forall|j: int| hi <= j < n ==> spec_is_whitespace(#[trigger] s@[j]),
        decreases hi,
    {
        hi = hi - 1;
    }
    let ghost t = s@.subrange(lo as int, n as int);
    proof {
        assert forall|j: int| t.len() - (n - hi) <= j < t.len() implies spec_is_whitespace(#[trigger] t[j]) by {
            assert(t[j] == s@[lo + j]);
        }
        if hi > lo {
            assert(t[t.len() - (n - hi) - 1] == s@[hi - 1]);
        }
        lemma_trailing_ws(t, (n - hi) as int);
    }
    let part: &str = s.substring_char(lo, hi);
    assert(part@ =~= t.subrange(0, t.len() - trailing_ws(t)));
    String::from_str(part)
}

/// The characters of `s`, in order.
pub fn to_chars(s: &str) -> (out: Vec<char>)
    ensures
        out@ == s@,
{
    let n: usize = s.unicode_len();
    let mut out: Vec<char> = Vec::new();
    let mut i: usize = 0;
    while i < n
        invariant
            n == s@.len(),
            i <= n,
            out@ == s@.subrange(0, i as int),
        decreases n - i,
    {
        out.push(s.get_char(i));
        i = i + 1;
        assert(out@ =~= s@.subrange(0, i as int));
    }
    assert(s@.subrange(0, n as int) =~= s@);
    out
}

/// Whether `v[from..from + lit.len()]` spells `lit`.
pub fn chars_match_at(v: &Vec<char>, from: usize, lit: &str) -> (r: bool)
    requires
        from <= v@.len(),
    ensures
        r == (from + lit@.len() <= v@.len() && v@.subrange(from as int, from + lit@.len()) == lit@),
{
    let m: usize = lit.unicode_len();
    if v.len() - from < m {
        return false;
    }
    let mut i: usize = 0;
    while i < m
        invariant
            m == lit@.len(),
            from + m <= v@.len(),
            from + m <= v.len(),
            i <= m,
            forall|j: int| 0 <= j < i ==> v@[from + j] == lit@[j],
        decreases m - i,
    {
        if v[from + i] != lit.get_char(i) {
            assert(v@.subrange(from as int, from + m)[i as int] != lit@[i as int]);
            return false;
        }
        i = i + 1;
    }
    assert(v@.subrange(from as int, from + m) =~= lit@);
    true
}

/// Whether `v` is exactly `lit`.
pub fn chars_eq(v: &Vec<char>, lit: &str) -> (r: bool)
    ensures
        r == (v@ == lit@),
{
    let m: usize = lit.unicode_len();
    if v.len() != m {
        return false;
    }
    let r: bool = chars_match_at(v, 0, lit);
    assert(v@.subrange(0, m as int) =~= v@);
    r
}

/// Index of the first `c` in `s` at or after `from`.
pub open spec fn find_char(s: Seq<char>, c: char, from: int) -> Option<int>
    decreases s.len() - from,
{
    if from < 0 || from >= s.len() {
        None
    } else if s[from] == c {
        Some(from)
    } else {
        find_char(s, c, from + 1)
    }
}

/// Index of the first `c` in `v` at or after `from`.
pub fn find_char_from(v: &Vec<char>, c: char, from: usize) -> (r: Option<usize>)
    requires
        from <= v@.len(),
    ensures
        r matches Some(i) ==> find_char(v@, c, from as int) == Some(i as int),
        r is None ==> find_char(v@, c, from as int) is None,
{
    let mut i: usize = from;
    while i < v.len()
        invariant
            from <= i <= v@.len(),
            find_char(v@, c, from as int) == find_char(v@, c, i as int),
        decreases v@.len() - i,
    {
        if v[i] == c {
            return Some(i);
        }
        i = i + 1;
    }
    None
}

pub proof fn lemma_find_char_found(s: Seq<char>, c: char, from: int)
    requires
        find_char(s, c, from) is Some,
    ensures
        from <= find_char(s, c, from)->0 < s.len(),
        s[find_char(s, c, from)->0] == c,
        forall|j: int| from <= j < find_char(s, c, from)->0 ==> s[j] != c,
    decreases s.len() - from,
{
    if s[from] != c {
        lemma_find_char_found(s, c, from + 1);
    }
}

/// Index of the last `c` in `s`.
pub open spec fn last_index_of(s: Seq<char>, c: char) -> Option<int>
    decreases s.len(),
{
    if s.len() == 0 {
        None
    } else if s.last() == c {
        Some(s.len() - 1)
    } else {
        last_index_of(s.drop_last(), c)
    }
}

pub proof fn lemma_last_index(s: Seq<char>, c: char, i: int)
    requires
        0 <= i < s.len(),
        s[i] == c,
        forall|j: int| i < j < s.len() ==> s[j] != c,
    ensures
        last_index_of(s, c) == Some(i),
    decreases s.len(),
{
    if i < s.len() - 1 {
        lemma_last_index(s.drop_last(), c, i);
    }
}

pub proof fn lemma_no_index(s: Seq<char>, c: char)
    requires
        forall|j: int| 0 <= j < s.len() ==> s[j] != c,
    ensures
        last_index_of(s, c) is None,
    decreases s.len(),
{
    if s.len() > 0 {
        lemma_no_index(s.drop_last(), c);
    }
}

/// Index of the last `c` in `v`.
pub fn last_index(v: &Vec<char>, c: char) -> (r: Option<usize>)
    ensures
        match r {
            Some(k) => last_index_of(v@, c) == Some(k as int) && k < v@.len() && v@[k as int] == c,
            None => last_index_of(v@, c) is None,
        },
{
    let mut found: Option<usize> = None;
    let mut i: usize = 0;
    while i < v.len()
        invariant
            i <= v@.len(),
            found matches Some(k) ==> k < i && v@[k as int] == c && forall|j: int| k < j < i ==> v@[j] != c,
            found is None ==> forall|j: int| 0 <= j < i ==> v@[j] != c,
        decreases v@.len() - i,
    {
        if v[i] == c {
            found = Some(i);
        }
        i = i + 1;
    }
    proof {
        match found {
            Some(k) => lemma_last_index(v@, c, k as int),
            None => lemma_no_index(v@, c),
        }
    }
    found
}

/// The decimal digit `d` (0 to 9).
pub open spec fn digit_char(d: int) -> char {
    if d == 0 {
        '0'
    } else if d == 1 {
        '1'
    } else if d == 2 {
        '2'
    } else if d == 3 {
        '3'
    } else if d == 4 {
        '4'
    } else if d == 5 {
        '5'
    } else if d == 6 {
        '6'
    } else if d == 7 {
        '7'
    } else if d == 8 {
        '8'
    } else {
        '9'
    }
}

/// `n` written in decimal, without leading zeros.
pub open spec fn spec_decimal(n: nat) -> Seq<char>
    decreases n,
{
    if n < 10 {
        seq![digit_char(n as int)]
    } else {
        spec_decimal(n / 10).push(digit_char((n % 10) as int))
    }
}

fn digit_str(d: u64) -> (s: &'static str)
    requires
        d < 10,
    ensures
        s@ == seq![digit_char(d as int)],
{
    proof {
        reveal_strlit("0");
        reveal_strlit("1");
        reveal_strlit("2");
        reveal_strlit("3");
        reveal_strlit("4");
        reveal_strlit("5");
        reveal_strlit("6");
        reveal_strlit("7");
        reveal_strlit("8");
        reveal_strlit("9");
    }
    if d == 0 {
        "0"
    } else if d == 1 {
        "1"
    } else if d == 2 {
        "2"
    } else if d == 3 {
        "3"
    } else if d == 4 {
        "4"
    } else if d == 5 {
        "5"
    } else if d == 6 {
        "6"
    } else if d == 7 {
        "7"
    } else if d == 8 {
        "8"
    } else {
        "9"
    }
}

/// `n` in decimal.
pub fn decimal(n: u64) -> (s: String)
    ensures
        s@ == spec_decimal(n as nat),
    decreases n,
{
    if n < 10 {
        String::from_str(digit_str(n))
    } else {
        let head: String = decimal(n / 10);
        let r = head.concat(digit_str(n % 10));
        proof {
            assert(r@ =~= spec_decimal((n / 10) as nat).push(digit_char((n % 10) as int)));
        }
        r
    }
}

/// `p` occurs in `s`.
pub open spec fn contains_text(s: Seq<char>, p: Seq<char>) -> bool {
    exists|i: int| 0 <= i && i + p.len() <= s.len() && #[trigger] s.subrange(i, i + p.len()) == p
}

/// Whether `lit` occurs in `s`.
pub fn text_contains(s: &str, lit: &str) -> (r: bool)
    ensures
        r == contains_text(s@, lit@),
{
    let v: Vec<char> = to_chars(s);
    let mut i: usize = 0;
    loop
        invariant
            v@ == s@,
            i <= v@.len(),
            forall|j: int| 0 <= j < i && j + lit@.len() <= s@.len() ==> #[trigger] s@.subrange(j, j + lit@.len()) != lit@,
        decreases v@.len() - i,
    {
        if chars_match_at(&v, i, lit) {
            return true;
        }
        if i == v.len() {
            return false;
        }
        i = i + 1;
    }
}

} // verus!
