//! Verified text helpers: decimal rendering of counts, digit parsing,
//! whitespace trimming, substring search, and month-label formatting.

use vstd::prelude::*;
use vstd::string::*;

verus! {

/// The character for one decimal digit value.
pub open spec fn digit_char(d: int) -> char {
    if d == 0 {
        '0'
    } else if d == 1 {
        '1'
    } else if d == 2 {
        '2'
    } else if d == 3 {
        '3'
    } else if d == 4 {
        '4'
    } else if d == 5 {
        '5'
    } else if d == 6 {
        '6'
    } else if d == 7 {
        '7'
    } else if d == 8 {
        '8'
    } else {
        '9'
    }
}

/// Decimal digit sequence of a non-negative integer, most significant first.
pub open spec fn dec_digits(n: int) -> Seq<char>
    decreases n,
{
    if n < 10 {
        seq![digit_char(n)]
    } else {
        dec_digits(n / 10).push(digit_char(n % 10))
    }
}

/// Decimal rendering of a possibly negative integer.
pub open spec fn dec_int(n: int) -> Seq<char> {
    if n < 0 {
        seq!['-'] + dec_digits(-n)
    } else {
        dec_digits(n)
    }
}

fn digit_str(d: u64) -> (r: &'static str)
    requires
        d < 10,
    ensures
        r@.len() == 1,
        r@[0] == digit_char(d as int),
{
    proof {
        reveal_strlit("0");
        reveal_strlit("1");
        reveal_strlit("2");
        reveal_strlit("3");
        reveal_strlit("4");
        reveal_strlit("5");
        reveal_strlit("6");
        reveal_strlit("7");
        reveal_strlit("8");
        reveal_strlit("9");
    }
    match d {
        0 => "0",
        1 => "1",
        2 => "2",
        3 => "3",
        4 => "4",
        5 => "5",
        6 => "6",
        7 => "7",
        8 => "8",
        _ => "9",
    }
}

/// Renders an unsigned count in decimal, as the export table shows it.
pub fn u64_to_dec(n: u64) -> (r: String)
    ensures
        r@ == dec_digits(n as int),
    decreases n,
{
    if n < 10 {
        let s = String::from_str(digit_str(n));
        proof {
            assert(s@ =~= dec_digits(n as int));
        }
        s
    } else {
        let mut s = u64_to_dec(n / 10);
        s.append(digit_str(n % 10));
        proof {
            assert(s@ =~= dec_digits(n as int));
        }
        s
    }
}

/// Renders a signed count in decimal, with a leading minus sign if negative.
pub fn i64_to_dec(n: i64) -> (r: String)
    ensures
        r@ == dec_int(n as int),
{
    if n >= 0 {
        u64_to_dec(n as u64)
    } else {
        let mag: u64 = if n == i64::MIN {
            9223372036854775808u64
        } else {
            (-n) as u64
        };
        assert(mag as int == -(n as int));
        let digits = u64_to_dec(mag);
        let mut s = String::from_str("-");
        s.append(digits.as_str());
        proof {
            reveal_strlit("-");
            assert(s@ =~= dec_int(n as int));
        }
        s
    }
}

/// ASCII whitespace, the only whitespace trimmed from query and facet text.
pub open spec fn is_space_char(c: char) -> bool {
    c == ' ' || c == '\t' || c == '\n' || c == '\r'
}

/// Number of whitespace characters at the front of `s`.
pub open spec fn leading_spaces(s: Seq<char>) -> int
    decreases s.len(),
{
    if s.len() == 0 {
        0
    } else if !is_space_char(s[0]) {
        0
    } else {
        1 + leading_spaces(s.subrange(1, s.len() as int))
    }
}

/// Number of whitespace characters at the back of `s`.
pub open spec fn trailing_spaces(s: Seq<char>) -> int
    decreases s.len(),
{
    if s.len() == 0 {
        0
    } else if !is_space_char(s[s.len() - 1]) {
        0
    } else {
        1 + trailing_spaces(s.subrange(0, s.len() - 1))
    }
}

/// `s` with leading and trailing whitespace removed.
pub open spec fn spec_trim(s: Seq<char>) -> Seq<char> {
    if leading_spaces(s) == s.len() {
        Seq::empty()
    } else {
        s.subrange(leading_spaces(s), s.len() - trailing_spaces(s))
    }
}

proof fn lemma_leading_spaces(s: Seq<char>)
    ensures
        0 <= leading_spaces(s) <= s.len(),
        forall|i: int| 0 <= i < leading_spaces(s) ==> is_space_char(s[i]),
        leading_spaces(s) < s.len() ==> !is_space_char(s[leading_spaces(s)]),
    decreases s.len(),
{
    if s.len() > 0 && is_space_char(s[0]) {
        let t = s.subrange(1, s.len() as int);
        lemma_leading_spaces(t);
        assert forall|i: int| 0 <= i < leading_spaces(s) implies is_space_char(s[i]) by {
            if i >= 1 {
                assert(is_space_char(t[i - 1]));
            }
        }
    }
}

proof fn lemma_trailing_spaces(s: Seq<char>)
    ensures
        0 <= trailing_spaces(s) <= s.len(),
        forall|i: int| s.len() - trailing_spaces(s) <= i < s.len() ==> is_space_char(s[i]),
        trailing_spaces(s) < s.len() ==> !is_space_char(s[s.len() - trailing_spaces(s) - 1]),
    decreases s.len(),
{
    if s.len() > 0 && is_space_char(s[s.len() - 1]) {
        let t = s.subrange(0, s.len() - 1);
        lemma_trailing_spaces(t);
        assert(forall|i: int| 0 <= i < t.len() ==> t[i] == s[i]);
    }
}

fn is_space(c: char) -> (r: bool)
    ensures
        r == is_space_char(c),
{
    c == ' ' || c == '\t' || c == '\n' || c == '\r'
}

/// Removes leading and trailing ASCII whitespace.
pub fn trim(s: &str) -> (r: String)
    ensures
        r@ == spec_trim(s@),
{
    let n = s.unicode_len();
    let mut start: usize = 0;
    while start < n && is_space(s.get_char(start))
        invariant
            0 <= start <= n,
            n == s@.len(),
            forall|i: int| 0 <= i < start ==> is_space_char(s@[i]),
        decreases n - start,
    {
        start = start + 1;
    }
    proof {
        lemma_leading_spaces(s@);
        assert(start == leading_spaces(s@));
    }
    let mut end: usize = n;
    while end > start && is_space(s.get_char(end - 1))
        invariant
            start <= end <= n,
            n == s@.len(),
            start == leading_spaces(s@),
            forall|i: int| end <= i < n ==> is_space_char(s@[i]),
        decreases end,
    {
        end = end - 1;
    }
    let r = String::from_str(s.substring_char(start, end));
    proof {
        lemma_leading_spaces(s@);
        lemma_trailing_spaces(s@);
        if start == n {
            assert(r@ =~= spec_trim(s@));
        } else {
            assert(!is_space_char(s@[start as int]));
            assert(end == n - trailing_spaces(s@));
            assert(r@ =~= spec_trim(s@));
        }
    }
    r
}

/// Relies on String::from_iter over a char iterator: collecting the
/// characters of a vector yields the string of exactly those characters.
#[verifier::external_body]
pub(crate) fn chars_to_string(v: &Vec<char>) -> (r: String)
    ensures
        r@ == v@,
{
    v.iter().collect()
}

/// Character-wise string equality.
pub fn str_eq(a: &str, b: &str) -> (r: bool)
    ensures
        r == (a@ == b@),
{
    let na = a.unicode_len();
    let nb = b.unicode_len();
    if na != nb {
        return false;
    }
    let mut i: usize = 0;
    while i < na
        invariant
            0 <= i <= na,
            na == a@.len(),
            na == b@.len(),
            forall|j: int| 0 <= j < i ==> a@[j] == b@[j],
        decreases na - i,
    {
        if a.get_char(i) != b.get_char(i) {
            return false;
        }
        i = i + 1;
    }
    proof {
        assert(a@ =~= b@);
    }
    true
}

/// `needle` occurs contiguously somewhere in `hay`.
pub open spec fn contains_seq(hay: Seq<char>, needle: Seq<char>) -> bool {
    exists|i: int|
        0 <= i && i + needle.len() <= hay.len() && #[trigger] hay.subrange(i, i + needle.len())
            == needle
}

/// Naive substring search.
pub fn str_contains(hay: &str, needle: &str) -> (r: bool)
    ensures
        r == contains_seq(hay@, needle@),
{
    let hn = hay.unicode_len();
    let nn = needle.unicode_len();
    if nn > hn {
        return false;
    }
    if nn == 0 {
        proof {
            assert(hay@.subrange(0, 0 + needle@.len() as int) =~= needle@);
        }
        return true;
    }
    let mut i: usize = 0;
    while i <= hn - nn
        invariant
            0 <= i <= hn - nn + 1,
            1 <= nn <= hn,
            hn == hay@.len(),
            nn == needle@.len(),
            forall|ii: int| 0 <= ii < i ==> #[trigger] hay@.subrange(ii, ii + nn) != needle@,
        decreases hn - i,
    {
        let mut j: usize = 0;
        let mut matched = true;
        while j < nn
            invariant
                0 <= j <= nn,
                0 <= i <= hn - nn,
                hn == hay@.len(),
                nn == needle@.len(),
                matched ==> forall|k: int| 0 <= k < j ==> hay@[i + k] == needle@[k],
                !matched ==> hay@.subrange(i as int, i + nn) != needle@,
            decreases nn - j,
        {
            if hay.get_char(i + j) != needle.get_char(j) {
                proof {
                    assert(hay@.subrange(i as int, i + nn)[j as int] == hay@[i + j]);
                }
                matched = false;
                j = nn;
            } else {
                j = j + 1;
            }
        }
        if matched {
            proof {
                assert(hay@.subrange(i as int, i + nn) =~= needle@);
            }
            return true;
        }
        i = i + 1;
    }
    proof {
        assert(forall|ii: int|
            0 <= ii && ii + needle@.len() <= hay@.len() ==> #[trigger] hay@.subrange(
                ii,
                ii + needle@.len(),
            ) != needle@);
    }
    false
}

/// A decimal digit character.
pub open spec fn is_digit_char(c: char) -> bool {
    c == '0' || c == '1' || c == '2' || c == '3' || c == '4' || c == '5' || c == '6' || c == '7'
        || c == '8' || c == '9'
}

/// Digit value of a decimal digit character.
pub open spec fn char_digit(c: char) -> int {
    if c == '0' {
        0
    } else if c == '1' {
        1
    } else if c == '2' {
        2
    } else if c == '3' {
        3
    } else if c == '4' {
        4
    } else if c == '5' {
        5
    } else if c == '6' {
        6
    } else if c == '7' {
        7
    } else if c == '8' {
        8
    } else {
        9
    }
}

pub open spec fn all_digits(s: Seq<char>) -> bool {
    forall|i: int| 0 <= i < s.len() ==> is_digit_char(s[i])
}

/// Numeric value of a digit sequence, most significant first.
pub open spec fn digits_val(s: Seq<char>) -> int
    decreases s.len(),
{
    if s.len() == 0 {
        0
    } else {
        digits_val(s.subrange(0, s.len() - 1)) * 10 + char_digit(s[s.len() - 1])
    }
}

/// A month field is valid when it is a non-empty digit string between 1 and 12.
pub open spec fn month_num(s: Seq<char>) -> Option<int> {
    if s.len() > 0 && all_digits(s) && 1 <= digits_val(s) <= 12 {
        Some(digits_val(s))
    } else {
        None
    }
}

fn char_digit_val(c: char) -> (r: Option<u64>)
    ensures
        r is Some <==> is_digit_char(c),
        r is Some ==> r->0 == char_digit(c),
{
    match c {
        '0' => Some(0),
        '1' => Some(1),
        '2' => Some(2),
        '3' => Some(3),
        '4' => Some(4),
        '5' => Some(5),
        '6' => Some(6),
        '7' => Some(7),
        '8' => Some(8),
        '9' => Some(9),
        _ => None,
    }
}

proof fn lemma_digits_val_nonneg(s: Seq<char>)
    ensures
        digits_val(s) >= 0,
    decreases s.len(),
{
    if s.len() > 0 {
        lemma_digits_val_nonneg(s.subrange(0, s.len() - 1));
    }
}

/// Parses a month field: digits only, value 1 through 12.
pub fn parse_month_num(s: &str) -> (r: Option<u8>)
    ensures
        r is Some <==> month_num(s@) is Some,
        r is Some ==> Some(r->0 as int) == month_num(s@),
{
    let n = s.unicode_len();
    let mut acc: u64 = 0;
    let mut i: usize = 0;
    while i < n
        invariant
            0 <= i <= n,
            n == s@.len(),
            forall|j: int| 0 <= j < i ==> is_digit_char(s@[j]),
            acc == if digits_val(s@.subrange(0, i as int)) <= 12 {
                digits_val(s@.subrange(0, i as int))
            } else {
                13int
            },
        decreases n - i,
    {
        let c = s.get_char(i);
        let ghost pre = s@.subrange(0, i as int);
        match char_digit_val(c) {
            Some(d) => {
                proof {
                    lemma_digits_val_nonneg(pre);
                    assert(s@.subrange(0, i + 1).subrange(0, i as int) =~= pre);
                    assert(s@.subrange(0, i + 1)[i as int] == c);
                }
                if acc > 12 {
                    acc = 13;
                } else {
                    acc = acc * 10 + d;
                    if acc > 12 {
                        acc = 13;
                    }
                }
            },
            None => {
                return None;
            },
        }
        i = i + 1;
    }
    proof {
        assert(s@.subrange(0, n as int) =~= s@);
    }
    if n > 0 && acc >= 1 && acc <= 12 {
        Some(acc as u8)
    } else {
        None
    }
}

/// Three-letter abbreviation of a month number.
pub open spec fn spec_month_abbr(m: int) -> Seq<char> {
    if m == 1 {
        "Jan"@
    } else if m == 2 {
        "Feb"@
    } else if m == 3 {
        "Mar"@
    } else if m == 4 {
        "Apr"@
    } else if m == 5 {
        "May"@
    } else if m == 6 {
        "Jun"@
    } else if m == 7 {
        "Jul"@
    } else if m == 8 {
        "Aug"@
    } else if m == 9 {
        "Sep"@
    } else if m == 10 {
        "Oct"@
    } else if m == 11 {
        "Nov"@
    } else {
        "Dec"@
    }
}

fn month_abbr(m: u8) -> (r: &'static str)
    requires
        1 <= m <= 12,
    ensures
        r@ == spec_month_abbr(m as int),
{
    match m {
        1 => "Jan",
        2 => "Feb",
        3 => "Mar",
        4 => "Apr",
        5 => "May",
        6 => "Jun",
        7 => "Jul",
        8 => "Aug",
        9 => "Sep",
        10 => "Oct",
        11 => "Nov",
        _ => "Dec",
    }
}

/// Index of the first occurrence of `c` in `s`, or `s.len()` if there is none.
pub open spec fn first_occ(s: Seq<char>, c: char) -> int
    decreases s.len(),
{
    if s.len() == 0 {
        0
    } else if s[0] == c {
        0
    } else {
        1 + first_occ(s.subrange(1, s.len() as int), c)
    }
}

pub proof fn lemma_first_occ(s: Seq<char>, c: char)
    ensures
        0 <= first_occ(s, c) <= s.len(),
        forall|i: int| 0 <= i < first_occ(s, c) ==> s[i] != c,
        first_occ(s, c) < s.len() ==> s[first_occ(s, c)] == c,
    decreases s.len(),
{
    if s.len() > 0 && s[0] != c {
        let t = s.subrange(1, s.len() as int);
        lemma_first_occ(t, c);
        assert forall|i: int| 0 <= i < first_occ(s, c) implies s[i] != c by {
            if i >= 1 {
                assert(t[i - 1] != c);
            }
        }
    }
}

/// Finds the first occurrence of `c` at or after `from`, or the length.
pub fn find_char_from(s: &str, from: usize, c: char) -> (r: usize)
    requires
        from <= s@.len(),
    ensures
        from <= r <= s@.len(),
        forall|i: int| from <= i < r ==> s@[i] != c,
        r < s@.len() ==> s@[r as int] == c,
{
    let n = s.unicode_len();
    let mut i: usize = from;
    while i < n
        invariant
            from <= i <= n,
            n == s@.len(),
            forall|j: int| from <= j < i ==> s@[j] != c,
        decreases n - i,
    {
        if s.get_char(i) == c {
            return i;
        }
        i = i + 1;
    }
    n
}

/// Display label of a raw month key: the text before the first dash is the
/// year, the text between the first and second dash is the month number, and
/// the label is, say, `Jun 2017`.  `None` when the key has no dash or the
/// month part is not a number from 1 to 12.
pub open spec fn spec_month_label(s: Seq<char>) -> Option<Seq<char>> {
    let d1 = first_occ(s, '-');
    if d1 == s.len() {
        None
    } else {
        let year = s.subrange(0, d1);
        let rest = s.subrange(d1 + 1, s.len() as int);
        let mp = rest.subrange(0, first_occ(rest, '-'));
        match month_num(mp) {
            Some(m) => Some(spec_month_abbr(m) + seq![' '] + year),
            None => None,
        }
    }
}

/// Builds the display label of a raw `YYYY-MM` month key.
pub fn month_label(s: &str) -> (r: Option<String>)
    ensures
        r is Some <==> spec_month_label(s@) is Some,
        r is Some ==> Some(r->0@) == spec_month_label(s@),
{
    let n = s.unicode_len();
    let d1 = find_char_from(s, 0, '-');
    proof {
        lemma_first_occ(s@, '-');
        assert(d1 == first_occ(s@, '-'));
    }
    if d1 == n {
        return None;
    }
    let d2 = find_char_from(s, d1 + 1, '-');
    let ghost rest = s@.subrange(d1 + 1, n as int);
    proof {
        lemma_first_occ(rest, '-');
        let fd = first_occ(rest, '-');
        let k = d2 as int - d1 - 1;
        if k < fd {
            if d2 < n {
                assert(rest[k] == s@[d2 as int]);
            }
            assert(false);
        }
        if k > fd {
            assert(rest[fd] == s@[d1 + 1 + fd]);
            assert(false);
        }
    }
    let mp = s.substring_char(d1 + 1, d2);
    proof {
        assert(mp@ =~= rest.subrange(0, first_occ(rest, '-')));
    }
    match parse_month_num(mp) {
        Some(m) => {
            let year = s.substring_char(0, d1);
            let mut label = String::from_str(month_abbr(m));
            label.append(" ");
            label.append(year);
            proof {
                reveal_strlit(" ");
                assert(label@ =~= spec_month_label(s@)->0);
            }
            Some(label)
        },
        None => None,
    }
}

} // verus!
