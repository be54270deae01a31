//! Character-level helpers shared by the FIX codec: splitting, unsigned
//! integer parsing and decimal formatting, stated over `Seq<char>`.
use vstd::prelude::*;

verus! {

/// The FIX field delimiter (SOH).
pub open spec fn soh() -> char {
    '\x01'
}

/// Pieces of `s` between occurrences of `sep` (as `str::split`): always at
/// least one piece, and an empty piece after a trailing separator.
pub open spec fn split_on(s: Seq<char>, sep: char) -> Seq<Seq<char>>
    decreases s.len(),
{
    if s.len() == 0 {
        seq![Seq::<char>::empty()]
    } else {
        let prev = split_on(s.drop_last(), sep);
        if s.last() == sep {
            prev.push(Seq::<char>::empty())
        } else {
            prev.update(prev.len() - 1, prev.last().push(s.last()))
        }
    }
}

/// `split_on` never yields an empty list of pieces.
pub proof fn lemma_split_nonempty(s: Seq<char>, sep: char)
    ensures
        split_on(s, sep).len() >= 1,
    decreases s.len(),
{
    if s.len() > 0 {
        lemma_split_nonempty(s.drop_last(), sep);
    }
}

/// One step of `split_on` on a prefix.
pub proof fn lemma_split_step(s: Seq<char>, i: int, sep: char)
    requires
        0 <= i < s.len(),
    ensures
        split_on(s.take(i + 1), sep) == (if s[i] == sep {
            split_on(s.take(i), sep).push(Seq::<char>::empty())
        } else {
            let prev = split_on(s.take(i), sep);
            prev.update(prev.len() - 1, prev.last().push(s[i]))
        }),
{
    assert(s.take(i + 1).drop_last() =~= s.take(i));
}

/// Index of the first occurrence of `c` in `s`, or `-1`.
pub open spec fn first_index_of(s: Seq<char>, c: char) -> int
    decreases s.len(),
{
    if s.len() == 0 {
        -1
    } else if s[0] == c {
        0
    } else {
        let r = first_index_of(s.drop_first(), c);
        if r < 0 {
            -1
        } else {
            r + 1
        }
    }
}

pub proof fn lemma_first_index_of(s: Seq<char>, c: char)
    ensures
        -1 <= first_index_of(s, c) < s.len(),
        first_index_of(s, c) >= 0 ==> s[first_index_of(s, c)] == c,
        first_index_of(s, c) >= 0 ==> forall|j: int|
            0 <= j < first_index_of(s, c) ==> s[j] != c,
        first_index_of(s, c) < 0 ==> forall|j: int| 0 <= j < s.len() ==> s[j] != c,
    decreases s.len(),
{
    if s.len() > 0 && s[0] != c {
        lemma_first_index_of(s.drop_first(), c);
        let r = first_index_of(s.drop_first(), c);
        if r >= 0 {
            assert forall|j: int| 0 <= j < r + 1 implies s[j] != c by {
                if j > 0 {
                    assert(s[j] == s.drop_first()[j - 1]);
                }
            }
        } else {
            assert forall|j: int| 0 <= j < s.len() implies s[j] != c by {
                if j > 0 {
                    assert(s[j] == s.drop_first()[j - 1]);
                }
            }
        }
    }
}

/// `str::split_once(c)`: the text before and after the first `c`.
pub open spec fn split_once(s: Seq<char>, c: char) -> Option<(Seq<char>, Seq<char>)> {
    let i = first_index_of(s, c);
    if i < 0 {
        None
    } else {
        Some((s.take(i), s.skip(i + 1)))
    }
}

pub open spec fn is_digit(c: char) -> bool {
    '0' <= c <= '9'
}

pub open spec fn digit_value(c: char) -> int {
    (c as int) - ('0' as int)
}

pub open spec fn all_digits(s: Seq<char>) -> bool {
    forall|i: int| 0 <= i < s.len() ==> is_digit(#[trigger] s[i])
}

/// Value of a run of decimal digits.
pub open spec fn digits_value(s: Seq<char>) -> int
    decreases s.len(),
{
    if s.len() == 0 {
        0
    } else {
        digits_value(s.drop_last()) * 10 + digit_value(s.last())
    }
}

/// Unsigned integer parsing as `str::parse` for an unsigned type whose
/// largest value is `max`: an optional `+`, then one or more digits, with a
/// value of at most `max`.
pub open spec fn parse_unsigned(s: Seq<char>, max: int) -> Option<int> {
    let d = if s.len() > 0 && s[0] == '+' {
        s.drop_first()
    } else {
        s
    };
    if d.len() > 0 && all_digits(d) && digits_value(d) <= max {
        Some(digits_value(d))
    } else {
        None
    }
}

/// `str::parse::<u32>()`.
pub open spec fn parse_u32(s: Seq<char>) -> Option<u32> {
    match parse_unsigned(s, u32::MAX as int) {
        Some(v) => Some(v as u32),
        None => None,
    }
}

/// `str::parse::<u8>()`.
pub open spec fn parse_u8(s: Seq<char>) -> Option<u8> {
    match parse_unsigned(s, u8::MAX as int) {
        Some(v) => Some(v as u8),
        None => None,
    }
}

proof fn lemma_digits_value_nonneg(s: Seq<char>)
    requires
        all_digits(s),
    ensures
        digits_value(s) >= 0,
    decreases s.len(),
{
    if s.len() > 0 {
        assert(all_digits(s.drop_last())) by {
            assert forall|i: int| 0 <= i < s.drop_last().len() implies is_digit(
                #[trigger] s.drop_last()[i],
            ) by {
                assert(s.drop_last()[i] == s[i]);
            }
        }
        lemma_digits_value_nonneg(s.drop_last());
        assert(is_digit(s[s.len() - 1]));
    }
}

/// The value of a run of digits is at least the value of any prefix of it.
proof fn lemma_digits_value_prefix(s: Seq<char>, i: int)
    requires
        all_digits(s),
        0 <= i <= s.len(),
    ensures
        digits_value(s.take(i)) <= digits_value(s),
    decreases s.len() - i,
{
    if i < s.len() {
        lemma_digits_value_prefix(s, i + 1);
        assert(s.take(i + 1).drop_last() =~= s.take(i));
        assert(all_digits(s.take(i))) by {
            assert forall|j: int| 0 <= j < s.take(i).len() implies is_digit(
                #[trigger] s.take(i)[j],
            ) by {
                assert(s.take(i)[j] == s[j]);
            }
        }
        lemma_digits_value_nonneg(s.take(i));
        assert(is_digit(s[i]));
        assert(s.take(i + 1).last() == s[i]);
    } else {
        assert(s.take(i) =~= s);
    }
}

/// Parse `cs[lo..hi]` as an unsigned integer of largest value `max`.
pub fn parse_unsigned_range(cs: &Vec<char>, lo: usize, hi: usize, max: u64) -> (r: Option<u64>)
    requires
        lo <= hi <= cs@.len(),
        max >= 9,
    ensures
        r matches Some(v) ==> parse_unsigned(cs@.subrange(lo as int, hi as int), max as int) == Some(
            v as int,
        ),
        r is None ==> parse_unsigned(cs@.subrange(lo as int, hi as int), max as int) is None,
{
    let ghost s = cs@.subrange(lo as int, hi as int);
    let mut start = lo;
    if lo < hi && cs[lo] == '+' {
        start = lo + 1;
    }
    let ghost d = cs@.subrange(start as int, hi as int);
    proof {
        if s.len() > 0 && s[0] == '+' {
            assert(d =~= s.drop_first());
        } else {
            assert(d =~= s);
        }
    }
    if start == hi {
        return None;
    }
    let mut acc: u64 = 0;
    let mut i = start;
    while i < hi
        invariant
            lo <= start <= i <= hi <= cs@.len(),
            d == cs@.subrange(start as int, hi as int),
            s == cs@.subrange(lo as int, hi as int),
            max >= 9,
            d.len() > 0,
            parse_unsigned(s, max as int) == (if all_digits(d) && digits_value(d) <= max {
                Some(digits_value(d))
            } else {
                None::<int>
            }),
            all_digits(d.take(i - start)),
            acc as int == digits_value(d.take(i - start)),
            acc <= max,
        decreases hi - i,
    {
        let c = cs[i];
        assert(c == d[i - start]);
        if !('0' <= c && c <= '9') {
            assert(!is_digit(d[i - start]));
            assert(!all_digits(d));
            return None;
        }
        let dv = (c as u32 - '0' as u32) as u64;
        proof {
            assert(d.take(i - start + 1).drop_last() =~= d.take(i - start));
            assert(all_digits(d.take(i - start + 1))) by {
                assert forall|j: int| 0 <= j < d.take(i - start + 1).len() implies is_digit(
                    #[trigger] d.take(i - start + 1)[j],
                ) by {
                    if j < i - start {
                        assert(d.take(i - start + 1)[j] == d.take(i - start)[j]);
                    }
                }
            }
        }
        if acc > (max - dv) / 10 {
            proof {
                assert(digits_value(d.take(i - start + 1)) > max) by (nonlinear_arith)
                    requires
                        digits_value(d.take(i - start + 1)) == acc * 10 + dv,
                        acc > (max - dv) / 10,
                        dv <= 9,
                        acc <= max,
                ;
                if all_digits(d) {
                    lemma_digits_value_prefix(d, i - start + 1);
                }
            }
            return None;
        }
        proof {
            assert(acc * 10 + dv <= max) by (nonlinear_arith)
                requires
                    acc <= (max - dv) / 10,
                    dv <= 9,
                    dv <= max || acc == 0,
            ;
        }
        acc = acc * 10 + dv;
        i = i + 1;
    }
    assert(d.take(i - start) =~= d);
    Some(acc)
}

/// Decimal representation of a natural number (no leading zeros).
pub open spec fn nat_to_chars(n: nat) -> Seq<char>
    decreases n,
{
    if n < 10 {
        seq![digit_char(n)]
    } else {
        nat_to_chars(n / 10).push(digit_char(n % 10))
    }
}

pub open spec fn digit_char(d: nat) -> char {
    (('0' as int) + d) as char
}

/// `format!("{:03}", n)` for `n < 1000`.
pub open spec fn three_digits(n: nat) -> Seq<char> {
    seq![digit_char(n / 100), digit_char((n / 10) % 10), digit_char(n % 10)]
}

fn digit(d: u64) -> (c: char)
    requires
        d < 10,
    ensures
        c == digit_char(d as nat),
{
    if d == 0 {
        '0'
    } else if d == 1 {
        '1'
    } else if d == 2 {
        '2'
    } else if d == 3 {
        '3'
    } else if d == 4 {
        '4'
    } else if d == 5 {
        '5'
    } else if d == 6 {
        '6'
    } else if d == 7 {
        '7'
    } else if d == 8 {
        '8'
    } else {
        '9'
    }
}

/// Append the decimal representation of `n`.
pub fn push_decimal(out: &mut Vec<char>, n: u64)
    ensures
        final(out)@ == old(out)@ + nat_to_chars(n as nat),
    decreases n,
{
    if n >= 10 {
        push_decimal(out, n / 10);
    }
    out.push(digit(n % 10));
    proof {
        if n < 10 {
            assert(n % 10 == n);
        }
    }
}

/// Decimal representation of a signed integer (`-` before negative ones).
pub open spec fn int_to_chars(i: int) -> Seq<char> {
    if i < 0 {
        seq!['-'] + nat_to_chars((-i) as nat)
    } else {
        nat_to_chars(i as nat)
    }
}

/// Append the decimal representation of a signed integer.
pub fn push_signed(out: &mut Vec<char>, i: i64)
    ensures
        final(out)@ == old(out)@ + int_to_chars(i as int),
{
    if i < 0 {
        out.push('-');
        let m: u64 = (0i128 - i as i128) as u64;
        push_decimal(out, m);
        assert(final(out)@ =~= old(out)@ + int_to_chars(i as int));
    } else {
        push_decimal(out, i as u64);
    }
}

/// The decimal representation of `n` as a string (`n.to_string()`).
pub fn decimal_string(n: u64) -> (s: String)
    ensures
        s@ == nat_to_chars(n as nat),
{
    let mut v: Vec<char> = Vec::new();
    push_decimal(&mut v, n);
    assert(v@ =~= nat_to_chars(n as nat));
    string_from_chars(v.as_slice())
}

/// Append `n` as three zero-padded digits.
pub fn push_three_digits(out: &mut Vec<char>, n: u64)
    requires
        n < 1000,
    ensures
        final(out)@ == old(out)@ + three_digits(n as nat),
{
    out.push(digit(n / 100));
    out.push(digit((n / 10) % 10));
    out.push(digit(n % 10));
}

/// Append all characters of a string.
pub fn push_str(out: &mut Vec<char>, s: &str)
    ensures
        final(out)@ == old(out)@ + s@,
{
    let cs = chars_of(s);
    let mut i: usize = 0;
    while i < cs.len()
        invariant
            i <= cs@.len(),
            cs@ == s@,
            out@ == old(out)@ + s@.take(i as int),
        decreases cs.len() - i,
    {
        out.push(cs[i]);
        i = i + 1;
        assert(s@.take(i as int) =~= s@.take(i - 1) + seq![s@[i - 1]]);
    }
    assert(s@.take(i as int) =~= s@);
}

/// The string made of `cs[lo..hi]`.
pub fn string_from_range(cs: &Vec<char>, lo: usize, hi: usize) -> (s: String)
    requires
        lo <= hi <= cs@.len(),
    ensures
        s@ == cs@.subrange(lo as int, hi as int),
{
    let mut v: Vec<char> = Vec::new();
    let mut i = lo;
    while i < hi
        invariant
            lo <= i <= hi <= cs@.len(),
            v@ == cs@.subrange(lo as int, i as int),
        decreases hi - i,
    {
        v.push(cs[i]);
        i = i + 1;
        assert(v@ =~= cs@.subrange(lo as int, i as int));
    }
    string_from_chars(v.as_slice())
}

/// `pat` occurs in `s`.
pub open spec fn contains_seq(s: Seq<char>, pat: Seq<char>) -> bool {
    exists|i: int| 0 <= i && i + pat.len() <= s.len() && #[trigger] s.subrange(i, i + pat.len()) == pat
}

/// Whether `pat` occurs in `cs`.
pub fn contains_chars(cs: &Vec<char>, pat: &Vec<char>) -> (b: bool)
    ensures
        b == contains_seq(cs@, pat@),
{
    if pat.len() > cs.len() {
        proof {
            assert forall|i: int| 0 <= i && i + pat@.len() <= cs@.len() implies #[trigger] cs@.subrange(
                i,
                i + pat@.len(),
            ) != pat@ by {}
        }
        return false;
    }
    let last = cs.len() - pat.len();
    let mut i: usize = 0;
    while i <= last
        invariant
            last + pat@.len() == cs@.len(),
            i <= last + 1,
            forall|k: int| 0 <= k < i ==> #[trigger] cs@.subrange(k, k + pat@.len()) != pat@,
        decreases last + 1 - i,
    {
        let mut j: usize = 0;
        let mut same = true;
        while j < pat.len()
            invariant
                i <= last,
                last + pat@.len() == cs@.len(),
                cs@.len() == cs.len(),
                j <= pat@.len(),
                same == (forall|k: int| 0 <= k < j ==> cs@[i + k] == pat@[k]),
            decreases pat.len() - j,
        {
            if cs[i + j] != pat[j] {
                same = false;
            }
            j = j + 1;
        }
        if same {
            assert(cs@.subrange(i as int, i + pat@.len()) =~= pat@);
            return true;
        }
        proof {
            let k0 = choose|k: int| 0 <= k < pat@.len() && cs@[i + k] != pat@[k];
            assert(cs@.subrange(i as int, i + pat@.len())[k0] != pat@[k0]);
        }
        if i == last {
            proof {
                assert forall|k: int| 0 <= k && k + pat@.len() <= cs@.len() implies #[trigger] cs@.subrange(
                    k,
                    k + pat@.len(),
                ) != pat@ by {
                    assert(k <= i);
                }
            }
            return false;
        }
        i = i + 1;
    }
    false
}

/// Whether two character sequences are equal.
pub fn chars_eq(a: &Vec<char>, b: &Vec<char>) -> (r: bool)
    ensures
        r == (a@ == b@),
{
    if a.len() != b.len() {
        return false;
    }
    let mut i: usize = 0;
    while i < a.len()
        invariant
            a@.len() == b@.len(),
            i <= a@.len(),
            forall|k: int| 0 <= k < i ==> a@[k] == b@[k],
        decreases a.len() - i,
    {
        if a[i] != b[i] {
            return false;
        }
        i = i + 1;
    }
    assert(a@ =~= b@);
    true
}

/// Whether a string equals the given literal text.
pub fn text_is(cs: &Vec<char>, lit: &str) -> (r: bool)
    ensures
        r == (cs@ == lit@),
{
    let l = chars_of(lit);
    chars_eq(cs, &l)
}

/// The characters of a string (`str::chars`, collected).
pub(crate) fn chars_of(s: &str) -> (v: Vec<char>)
    ensures
        v@ == s@,
{
    broadcast use vstd::string::axiom_spec_iter;

    let mut v: Vec<char> = Vec::new();
    for c in it: s.chars()
        invariant
            it.seq() == s@,
            v@ == it.seq().take(it.index() as int),
    {
        v.push(c);
        assert(v@ =~= it.seq().take(it.index() + 1));
    }
    assert(v@ =~= s@);
    v
}

/// The string made of these characters (`String: FromIterator<char>`).
#[verifier::external_body]
pub(crate) fn string_from_chars(v: &[char]) -> (s: String)
    ensures
        s@ == v@,
{
    v.iter().collect()
}

/// `str::parse::<i64>()`: an optional `+` or `-`, then one or more digits,
/// within the range of `i64`.
pub open spec fn parse_i64(s: Seq<char>) -> Option<i64> {
    if s.len() > 0 && s[0] == '-' {
        let d = s.drop_first();
        if d.len() > 0 && all_digits(d) && digits_value(d) <= 9223372036854775808 {
            Some((-digits_value(d)) as i64)
        } else {
            None
        }
    } else {
        match parse_unsigned(s, 9223372036854775807) {
            Some(v) => Some(v as i64),
            None => None,
        }
    }
}

/// Parse a whole string as an `i64`.
pub fn parse_i64_text(text: &str) -> (r: Option<i64>)
    ensures
        r == parse_i64(text@),
{
    let cs = chars_of(text);
    let n = cs.len();
    if n > 0 && cs[0] == '-' {
        if n > 1 && cs[1] == '+' {
            proof {
                let d = text@.drop_first();
                assert(d[0] == '+');
                assert(!is_digit(d[0]));
            }
            return None;
        }
        let r = parse_unsigned_range(&cs, 1, n, 9223372036854775808u64);
        proof {
            let d = text@.drop_first();
            assert(cs@.subrange(1, n as int) =~= d);
        }
        match r {
            Some(v) => {
                proof {
                    let d = text@.drop_first();
                    assert(d.len() > 0 ==> d[0] != '+');
                }
                if v == 9223372036854775808u64 {
                    Some(-9223372036854775807i64 - 1)
                } else {
                    Some(-(v as i64))
                }
            },
            None => None,
        }
    } else {
        let r = parse_unsigned_range(&cs, 0, n, 9223372036854775807u64);
        proof {
            assert(cs@.subrange(0, n as int) =~= text@);
        }
        match r {
            Some(v) => Some(v as i64),
            None => None,
        }
    }
}

} // verus!
