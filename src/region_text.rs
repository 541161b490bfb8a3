//! The text form of a region, one per line: `<x>,<y> <w>x<h>`, signed
//! decimal integers, with optional whitespace around the whole.
use vstd::prelude::*;

verus! {

/// A rectangle read from or written as region text.
#[derive(Clone, Copy, Debug, PartialEq, Eq, Structural)]
pub struct Region {
    pub x: i32,
    pub y: i32,
    pub width: i32,
    pub height: i32,
}

/// Why a field of region text is not an `i32`.
#[derive(Clone, Copy, Debug, PartialEq, Eq, Structural)]
pub enum NumberError {
    /// The field is empty.
    Empty,
    /// The field holds something other than an optional sign and digits.
    InvalidDigit,
    /// The value is above `i32::MAX`.
    PosOverflow,
    /// The value is below `i32::MIN`.
    NegOverflow,
}

/// Why region text was not accepted.
#[derive(Clone, Copy, Debug, PartialEq, Eq, Structural)]
pub enum ParseRuleError {
    /// The text does not have the `x,y wxh` layout.
    InvalidFormat,
    /// One of the four fields is not a decimal integer that fits, for the
    /// reason given.
    InvalidNumber(NumberError),
}

/// The description of a number error.
pub open spec fn number_error_text(e: NumberError) -> Seq<char> {
    match e {
        NumberError::Empty => "cannot parse integer from empty string"@,
        NumberError::InvalidDigit => "invalid digit found in string"@,
        NumberError::PosOverflow => "number too large to fit in target type"@,
        NumberError::NegOverflow => "number too small to fit in target type"@,
    }
}

/// The description of a region text error.
pub open spec fn parse_error_text(e: ParseRuleError) -> Seq<char> {
    match e {
        ParseRuleError::InvalidFormat => "invalid region format"@,
        ParseRuleError::InvalidNumber(n) => "invalid number: "@ + number_error_text(n),
    }
}

impl NumberError {
    /// A short description of the error.
    pub fn text(&self) -> (r: &'static str)
        ensures
            r@ == number_error_text(*self),
    {
        match self {
            NumberError::Empty => "cannot parse integer from empty string",
            NumberError::InvalidDigit => "invalid digit found in string",
            NumberError::PosOverflow => "number too large to fit in target type",
            NumberError::NegOverflow => "number too small to fit in target type",
        }
    }
}

impl ParseRuleError {
    /// A short description of the error; for a bad number, with its reason.
    pub fn message(&self) -> (r: String)
        ensures
            r@ == parse_error_text(*self),
    {
        match self {
            ParseRuleError::InvalidFormat => String::from_str("invalid region format"),
            ParseRuleError::InvalidNumber(n) => String::from_str("invalid number: ").concat(n.text()),
        }
    }
}

/// Whitespace that may surround a line of region text.
pub open spec fn is_space(c: char) -> bool {
    c == ' ' || c == '\t' || c == '\n' || c == '\r'
}

/// A decimal digit.
pub open spec fn is_digit(c: char) -> bool {
    '0' <= c && c <= '9'
}

/// The value of a decimal digit.
pub open spec fn digit_value(c: char) -> int {
    c as int - '0' as int
}

/// The digit for a value below ten.
pub open spec fn digit_char(d: int) -> char {
    (d + '0' as int) as char
}

/// `s` without its leading whitespace.
pub open spec fn trim_start(s: Seq<char>) -> Seq<char>
    decreases s.len(),
{
    if s.len() > 0 && is_space(s[0]) {
        trim_start(s.drop_first())
    } else {
        s
    }
}

/// `s` without its trailing whitespace.
pub open spec fn trim_end(s: Seq<char>) -> Seq<char>
    decreases s.len(),
{
    if s.len() > 0 && is_space(s.last()) {
        trim_end(s.drop_last())
    } else {
        s
    }
}

/// Position of the first `c` among the first `n` characters of `s`, or -1.
pub open spec fn find(s: Seq<char>, c: char, n: int) -> int
    decreases n,
{
    if n <= 0 {
        -1
    } else {
        let k = find(s, c, n - 1);
        if k >= 0 {
            k
        } else if s[n - 1] == c {
            n - 1
        } else {
            -1
        }
    }
}

/// Every character is a decimal digit.
pub open spec fn all_digits(s: Seq<char>) -> bool {
    forall|i: int| 0 <= i < s.len() ==> is_digit(#[trigger] s[i])
}

/// The value of a string of decimal digits.
pub open spec fn digits_value(s: Seq<char>) -> int
    decreases s.len(),
{
    if s.len() == 0 {
        0
    } else {
        digits_value(s.drop_last()) * 10 + digit_value(s.last())
    }
}

/// The integer written by `s`: an optional `-` or `+`, then one or more digits.
pub open spec fn int_value(s: Seq<char>) -> Option<int> {
    if s.len() > 0 && (s[0] == '-' || s[0] == '+') {
        let d = s.drop_first();
        if d.len() > 0 && all_digits(d) {
            Some(if s[0] == '-' { -digits_value(d) } else { digits_value(d) })
        } else {
            None
        }
    } else if s.len() > 0 && all_digits(s) {
        Some(digits_value(s))
    } else {
        None
    }
}

/// The `i32` written by `s`; otherwise why not: empty, not an optional
/// sign followed by one or more digits, or out of range on either side.
pub open spec fn number_of(s: Seq<char>) -> Result<i32, NumberError> {
    match int_value(s) {
        Some(v) => if v > i32::MAX {
            Err(NumberError::PosOverflow)
        } else if v < i32::MIN {
            Err(NumberError::NegOverflow)
        } else {
            Ok(v as i32)
        },
        None => if s.len() == 0 {
            Err(NumberError::Empty)
        } else {
            Err(NumberError::InvalidDigit)
        },
    }
}

/// What parsing a line gives.
pub open spec fn parsed(line: Seq<char>) -> Result<Region, ParseRuleError> {
    let t = trim_end(trim_start(line));
    let c = find(t, ',', t.len() as int);
    let r1 = t.subrange(c + 1, t.len() as int);
    let sp = find(r1, ' ', r1.len() as int);
    let r2 = r1.subrange(sp + 1, r1.len() as int);
    let xx = find(r2, 'x', r2.len() as int);
    if c < 0 || sp < 0 || xx < 0 {
        Err(ParseRuleError::InvalidFormat)
    } else {
        let x = number_of(t.subrange(0, c));
        let y = number_of(r1.subrange(0, sp));
        let w = number_of(r2.subrange(0, xx));
        let h = number_of(r2.subrange(xx + 1, r2.len() as int));
        if x is Err {
            Err(ParseRuleError::InvalidNumber(x->Err_0))
        } else if y is Err {
            Err(ParseRuleError::InvalidNumber(y->Err_0))
        } else if w is Err {
            Err(ParseRuleError::InvalidNumber(w->Err_0))
        } else if h is Err {
            Err(ParseRuleError::InvalidNumber(h->Err_0))
        } else {
            Ok(Region { x: x->Ok_0, y: y->Ok_0, width: w->Ok_0, height: h->Ok_0 })
        }
    }
}

/// The decimal digits of `n`, most significant first, without leading zeros.
pub open spec fn nat_text(n: nat) -> Seq<char>
    decreases n,
{
    if n < 10 {
        seq![digit_char(n as int)]
    } else {
        nat_text(n / 10).push(digit_char((n % 10) as int))
    }
}

/// `v` in decimal, with a `-` when negative.
pub open spec fn int_text(v: int) -> Seq<char> {
    if v < 0 {
        seq!['-'] + nat_text((-v) as nat)
    } else {
        nat_text(v as nat)
    }
}

/// The text of a region: `x,y wxh`.
pub open spec fn region_text(r: Region) -> Seq<char> {
    int_text(r.x as int) + seq![','] + int_text(r.y as int) + seq![' '] + int_text(r.width as int)
        + seq!['x'] + int_text(r.height as int)
}

proof fn lemma_nat_text(n: nat)
    ensures
        nat_text(n).len() > 0,
        all_digits(nat_text(n)),
        digits_value(nat_text(n)) == n,
    decreases n,
{
    let s = nat_text(n);
    if n < 10 {
        assert(s.drop_last() =~= Seq::<char>::empty());
        assert(digits_value(Seq::<char>::empty()) == 0);
        assert(digit_value(digit_char(n as int)) == n);
        assert(digits_value(s) == digits_value(s.drop_last()) * 10 + digit_value(s.last()));
    } else {
        lemma_nat_text(n / 10);
        let c = digit_char((n % 10) as int);
        assert(digit_value(c) == n % 10);
        assert(s.drop_last() =~= nat_text(n / 10));
        assert(digits_value(s) == digits_value(s.drop_last()) * 10 + digit_value(s.last()));
        assert forall|i: int| 0 <= i < s.len() implies is_digit(#[trigger] s[i]) by {
            if i < s.len() - 1 {
                assert(s[i] == nat_text(n / 10)[i]);
            }
        }
    }
}

/// The text of an integer reads back as that integer, starts and ends
/// with no whitespace, and holds none of the separators.
proof fn lemma_int_text(v: int)
    ensures
        int_value(int_text(v)) == Some(v),
        int_text(v).len() > 0,
        !is_space(int_text(v)[0]),
        !is_space(int_text(v).last()),
        forall|i: int| 0 <= i < int_text(v).len() ==> {
            let c = #[trigger] int_text(v)[i];
            c != ',' && c != ' ' && c != 'x'
        },
{
    let s = int_text(v);
    if v < 0 {
        let d = nat_text((-v) as nat);
        lemma_nat_text((-v) as nat);
        assert(s.drop_first() =~= d);
        assert(s.last() == d.last());
        assert(is_digit(d[d.len() - 1]));
        assert forall|i: int| 0 <= i < s.len() implies {
            let c = #[trigger] s[i];
            c != ',' && c != ' ' && c != 'x'
        } by {
            if i > 0 {
                assert(s[i] == d[i - 1]);
                assert(is_digit(d[i - 1]));
            }
        }
    } else {
        lemma_nat_text(v as nat);
        assert(is_digit(s[0]));
        assert(is_digit(s[s.len() - 1]));
        assert forall|i: int| 0 <= i < s.len() implies {
            let c = #[trigger] s[i];
            c != ',' && c != ' ' && c != 'x'
        } by {
            assert(is_digit(s[i]));
        }
    }
}

proof fn lemma_find_absent(s: Seq<char>, c: char, n: int)
    requires
        n <= s.len(),
        forall|i: int| 0 <= i < n ==> s[i] != c,
    ensures
        find(s, c, n) == -1,
    decreases n,
{
    if n > 0 {
        lemma_find_absent(s, c, n - 1);
    }
}

proof fn lemma_find_stays(s: Seq<char>, c: char, n: int, m: int)
    requires
        n <= m,
        find(s, c, n) >= 0,
    ensures
        find(s, c, m) == find(s, c, n),
    decreases m - n,
{
    if n < m {
        lemma_find_stays(s, c, n, m - 1);
    }
}

/// In `a`, `c`, `b` with no `c` in `a`, the first `c` follows `a`, and
/// cutting there gives `a` and `b` back.
proof fn lemma_split_at(a: Seq<char>, c: char, b: Seq<char>)
    requires
        forall|i: int| 0 <= i < a.len() ==> a[i] != c,
    ensures
        ({
            let s = a + seq![c] + b;
            &&& find(s, c, s.len() as int) == a.len()
            &&& s.subrange(0, a.len() as int) == a
            &&& s.subrange(a.len() as int + 1, s.len() as int) == b
        }),
{
    let s = a + seq![c] + b;
    lemma_find_absent(s, c, a.len() as int);
    assert(s[a.len() as int] == c);
    assert(find(s, c, a.len() as int + 1) == a.len());
    lemma_find_stays(s, c, a.len() as int + 1, s.len() as int);
    assert(s.subrange(0, a.len() as int) =~= a);
    assert(s.subrange(a.len() as int + 1, s.len() as int) =~= b);
}

proof fn lemma_trim_keeps(t: Seq<char>)
    requires
        t.len() > 0,
        !is_space(t[0]),
        !is_space(t.last()),
    ensures
        trim_end(trim_start(t)) == t,
{
}

proof fn lemma_number_of_text(v: i32)
    ensures
        number_of(int_text(v as int)) == Ok::<i32, NumberError>(v),
{
    lemma_int_text(v as int);
}

/// Formatting a region and parsing the text gives the region back.
pub proof fn lemma_region_round_trip(r: Region)
    ensures
        parsed(region_text(r)) == Ok::<Region, ParseRuleError>(r),
{
    let xs = int_text(r.x as int);
    let ys = int_text(r.y as int);
    let ws = int_text(r.width as int);
    let hs = int_text(r.height as int);
    lemma_int_text(r.x as int);
    lemma_int_text(r.y as int);
    lemma_int_text(r.width as int);
    lemma_int_text(r.height as int);
    lemma_number_of_text(r.x);
    lemma_number_of_text(r.y);
    lemma_number_of_text(r.width);
    lemma_number_of_text(r.height);
    let t = region_text(r);
    assert(t[0] == xs[0]);
    assert(t.last() == hs.last());
    lemma_trim_keeps(t);

    let b1 = ys + seq![' '] + ws + seq!['x'] + hs;
    let b2 = ws + seq!['x'] + hs;
    assert(t =~= xs + seq![','] + b1);
    assert(b1 =~= ys + seq![' '] + b2);
    lemma_split_at(xs, ',', b1);
    lemma_split_at(ys, ' ', b2);
    lemma_split_at(ws, 'x', hs);
}

/// The one-character text of digit `d`.
fn digit_text(d: u64) -> (r: &'static str)
    requires
        d < 10,
    ensures
        r@ == seq![digit_char(d as int)],
{
    proof {
        reveal_strlit("0");
        reveal_strlit("1");
        reveal_strlit("2");
        reveal_strlit("3");
        reveal_strlit("4");
        reveal_strlit("5");
        reveal_strlit("6");
        reveal_strlit("7");
        reveal_strlit("8");
        reveal_strlit("9");
    }
    let r = if d == 0 {
        "0"
    } else if d == 1 {
        "1"
    } else if d == 2 {
        "2"
    } else if d == 3 {
        "3"
    } else if d == 4 {
        "4"
    } else if d == 5 {
        "5"
    } else if d == 6 {
        "6"
    } else if d == 7 {
        "7"
    } else if d == 8 {
        "8"
    } else {
        "9"
    };
    assert(r@ =~= seq![digit_char(d as int)]);
    r
}

/// Appends the decimal digits of `n`.
fn push_digits(out: &mut String, n: u64)
    ensures
        final(out)@ == old(out)@ + nat_text(n as nat),
    decreases n,
{
    if n >= 10 {
        push_digits(out, n / 10);
    }
    out.append(digit_text(n % 10));
    assert(final(out)@ =~= old(out)@ + nat_text(n as nat));
}

/// Appends `v` in decimal, with a `-` when negative.
fn push_int(out: &mut String, v: i32)
    ensures
        final(out)@ == old(out)@ + int_text(v as int),
{
    if v < 0 {
        proof {
            reveal_strlit("-");
        }
        out.append("-");
        push_digits(out, (-(v as i64)) as u64);
        assert(final(out)@ =~= old(out)@ + int_text(v as int));
    } else {
        push_digits(out, v as u64);
    }
}

/// The text of a region: `x,y wxh`.
pub fn format_region(region: &Region) -> (r: String)
    ensures
        r@ == region_text(*region),
{
    proof {
        reveal_strlit(",");
        reveal_strlit(" ");
        reveal_strlit("x");
    }
    let mut out = String::new();
    push_int(&mut out, region.x);
    out.append(",");
    push_int(&mut out, region.y);
    out.append(" ");
    push_int(&mut out, region.width);
    out.append("x");
    push_int(&mut out, region.height);
    assert(out@ =~= region_text(*region));
    out
}

/// Whitespace as the region text knows it.
fn is_space_char(c: char) -> (r: bool)
    ensures
        r == is_space(c),
{
    c == ' ' || c == '\t' || c == '\n' || c == '\r'
}

/// The characters of `s`, in order.
fn chars_of(s: &str) -> (r: Vec<char>)
    ensures
        r@ == s@,
{
    let n = s.unicode_len();
    let mut out: Vec<char> = Vec::new();
    let mut i: usize = 0;
    while i < n
        invariant
            n == s@.len(),
            0 <= i <= n,
            out@ == s@.subrange(0, i as int),
        decreases n - i,
    {
        out.push(s.get_char(i));
        i = i + 1;
        assert(out@ =~= s@.subrange(0, i as int));
    }
    assert(out@ =~= s@);
    out
}

/// The characters of `v` from `lo` up to `hi`.
fn slice_of(v: &Vec<char>, lo: usize, hi: usize) -> (r: Vec<char>)
    requires
        lo <= hi <= v@.len(),
    ensures
        r@ == v@.subrange(lo as int, hi as int),
{
    let mut out: Vec<char> = Vec::new();
    let mut i: usize = lo;
    while i < hi
        invariant
            lo <= i <= hi <= v@.len(),
            out@ == v@.subrange(lo as int, i as int),
        decreases hi - i,
    {
        out.push(v[i]);
        i = i + 1;
        assert(out@ =~= v@.subrange(lo as int, i as int));
    }
    out
}

/// Position of the first `c` in `v`.
fn find_char(v: &Vec<char>, c: char) -> (r: Option<usize>)
    ensures
        r is None <==> find(v@, c, v@.len() as int) < 0,
        r matches Some(k) ==> k as int == find(v@, c, v@.len() as int) && k < v@.len(),
{
    let mut i: usize = 0;
    while i < v.len()
        invariant
            0 <= i <= v@.len(),
            find(v@, c, i as int) == -1,
        decreases v@.len() - i,
    {
        if v[i] == c {
            proof {
                lemma_find_stays(v@, c, i + 1, v@.len() as int);
            }
            return Some(i);
        }
        i = i + 1;
    }
    None
}

proof fn lemma_trim_start_skip(s: Seq<char>, k: int)
    requires
        0 <= k <= s.len(),
        forall|j: int| 0 <= j < k ==> is_space(#[trigger] s[j]),
    ensures
        trim_start(s) == trim_start(s.subrange(k, s.len() as int)),
    decreases k,
{
    if k > 0 {
        let d = s.drop_first();
        assert forall|j: int| 0 <= j < k - 1 implies is_space(#[trigger] d[j]) by {
            assert(d[j] == s[j + 1]);
        }
        lemma_trim_start_skip(d, k - 1);
        assert(d.subrange(k - 1, d.len() as int) =~= s.subrange(k, s.len() as int));
    } else {
        assert(s.subrange(0, s.len() as int) =~= s);
    }
}

proof fn lemma_trim_end_skip(s: Seq<char>, k: int)
    requires
        0 <= k <= s.len(),
        forall|j: int| k <= j < s.len() ==> is_space(#[trigger] s[j]),
    ensures
        trim_end(s) == trim_end(s.subrange(0, k)),
    decreases s.len() - k,
{
    if k < s.len() {
        let d = s.drop_last();
        assert forall|j: int| k <= j < d.len() implies is_space(#[trigger] d[j]) by {
            assert(d[j] == s[j]);
        }
        lemma_trim_end_skip(d, k);
        assert(d.subrange(0, k) =~= s.subrange(0, k));
    } else {
        assert(s.subrange(0, k) =~= s);
    }
}

proof fn lemma_digits_nonneg(s: Seq<char>)
    requires
        all_digits(s),
    ensures
        digits_value(s) >= 0,
    decreases s.len(),
{
    if s.len() > 0 {
        let d = s.drop_last();
        assert forall|i: int| 0 <= i < d.len() implies is_digit(#[trigger] d[i]) by {
            assert(d[i] == s[i]);
        }
        lemma_digits_nonneg(d);
        assert(is_digit(s[s.len() - 1]));
    }
}

/// Digit prefixes never weigh more than the whole.
proof fn lemma_digits_grow(s: Seq<char>, k: int, m: int)
    requires
        all_digits(s),
        0 <= k <= m <= s.len(),
    ensures
        digits_value(s.subrange(0, k)) <= digits_value(s.subrange(0, m)),
    decreases m - k,
{
    if k < m {
        lemma_digits_grow(s, k, m - 1);
        let u = s.subrange(0, m);
        assert(u.drop_last() =~= s.subrange(0, m - 1));
        assert forall|i: int| 0 <= i < u.len() implies is_digit(#[trigger] u[i]) by {
            assert(u[i] == s[i]);
        }
        lemma_digits_nonneg(u.drop_last());
        assert(is_digit(u[u.len() - 1]));
    }
}

/// The `i32` written by `v`: an optional sign, then digits; the reason
/// when that is not what `v` holds or the value does not fit.
pub fn parse_number(v: &Vec<char>) -> (r: Result<i32, NumberError>)
    ensures
        r == number_of(v@),
{
    let n = v.len();
    if n == 0 {
        return Err(NumberError::Empty);
    }
    let neg = v[0] == '-';
    let start: usize = if neg || v[0] == '+' { 1 } else { 0 };
    if start == n {
        return Err(NumberError::InvalidDigit);
    }
    let ghost d = v@.subrange(start as int, n as int);
    proof {
        if start == 1 {
            assert(d =~= v@.drop_first());
        } else {
            assert(d =~= v@);
        }
    }
    let mut i: usize = start;
    while i < n
        invariant
            n == v@.len(),
            start <= i <= n,
            d == v@.subrange(start as int, n as int),
            n > 0,
            neg == (v@[0] == '-'),
            start == 1 <==> (v@[0] == '-' || v@[0] == '+'),
            start == 1 ==> d == v@.drop_first(),
            start == 0 ==> d == v@,
            start <= 1,
            d.len() > 0,
            forall|j: int| 0 <= j < i - start ==> is_digit(#[trigger] d[j]),
        decreases n - i,
    {
        let c = v[i];
        if !('0' <= c && c <= '9') {
            proof {
                assert(d[i - start] == c);
                assert(!is_digit(d[i - start]));
                assert(!all_digits(d));
                if start == 0 {
                    assert(!all_digits(v@));
                }
            }
            return Err(NumberError::InvalidDigit);
        }
        i = i + 1;
    }
    assert(all_digits(d));
    let mut acc: u64 = 0;
    let mut i: usize = start;
    while i < n
        invariant
            n == v@.len(),
            start <= i <= n,
            d == v@.subrange(start as int, n as int),
            n > 0,
            neg == (v@[0] == '-'),
            start == 1 <==> (v@[0] == '-' || v@[0] == '+'),
            start == 1 ==> d == v@.drop_first(),
            start == 0 ==> d == v@,
            start <= 1,
            d.len() > 0,
            all_digits(d),
            acc as int == digits_value(d.subrange(0, i - start)),
            acc <= 0x8000_0000,
        decreases n - i,
    {
        let c = v[i];
        proof {
            let u = d.subrange(0, i - start + 1);
            assert(u.drop_last() =~= d.subrange(0, i - start));
            assert(d[i - start] == c);
            assert(u.last() == c);
            assert(is_digit(d[i - start]));
            assert(digits_value(u) == digits_value(u.drop_last()) * 10 + digit_value(u.last()));
        }
        let digit = (c as u32 - '0' as u32) as u64;
        acc = acc * 10 + digit;
        i = i + 1;
        if acc > 0x8000_0000 {
            proof {
                lemma_digits_grow(d, i - start, d.len() as int);
                assert(d.subrange(0, d.len() as int) =~= d);
                assert(digits_value(d) > 0x8000_0000);
            }
            return if neg {
                Err(NumberError::NegOverflow)
            } else {
                Err(NumberError::PosOverflow)
            };
        }
    }
    proof {
        assert(d.subrange(0, d.len() as int) =~= d);
    }
    if neg {
        Ok((-(acc as i64)) as i32)
    } else if acc > 0x7FFF_FFFF {
        Err(NumberError::PosOverflow)
    } else {
        Ok(acc as i32)
    }
}

/// Reads one line of region text: `x,y wxh` with signed decimal integers
/// and optional whitespace around it. `InvalidFormat` when the separators
/// are missing; otherwise `InvalidNumber`, with its reason, for the first of
/// `x`, `y`, `w`, `h` that is not an integer that fits.
pub fn parse_region(line: &str) -> (r: Result<Region, ParseRuleError>)
    ensures
        r == parsed(line@),
{
    let v = chars_of(line);
    let n = v.len();
    let mut lo: usize = 0;
    while lo < n && is_space_char(v[lo])
        invariant
            n == v@.len(),
            lo <= n,
            forall|j: int| 0 <= j < lo ==> is_space(#[trigger] v@[j]),
        decreases n - lo,
    {
        lo = lo + 1;
    }
    let mut hi: usize = n;
    while hi > lo && is_space_char(v[hi - 1])
        invariant
            n == v@.len(),
            lo <= hi <= n,
            forall|j: int| hi <= j < n ==> is_space(#[trigger] v@[j]),
        decreases hi,
    {
        hi = hi - 1;
    }
    let t = slice_of(&v, lo, hi);
    proof {
        lemma_trim_start_skip(v@, lo as int);
        let u = v@.subrange(lo as int, n as int);
        assert(trim_start(u) == u);
        assert forall|j: int| (hi - lo) <= j < u.len() implies is_space(#[trigger] u[j]) by {
            assert(u[j] == v@[lo + j]);
        }
        lemma_trim_end_skip(u, hi - lo);
        assert(u.subrange(0, hi - lo) =~= t@);
        if hi > lo {
            assert(t@.last() == v@[hi - 1]);
        }
        assert(trim_end(t@) == t@);
    }
    let c = match find_char(&t, ',') {
        Some(c) => c,
        None => {
            return Err(ParseRuleError::InvalidFormat);
        },
    };
    let r1 = slice_of(&t, c + 1, t.len());
    let sp = match find_char(&r1, ' ') {
        Some(sp) => sp,
        None => {
            return Err(ParseRuleError::InvalidFormat);
        },
    };
    let r2 = slice_of(&r1, sp + 1, r1.len());
    let xx = match find_char(&r2, 'x') {
        Some(xx) => xx,
        None => {
            return Err(ParseRuleError::InvalidFormat);
        },
    };
    let x = parse_number(&slice_of(&t, 0, c));
    let y = parse_number(&slice_of(&r1, 0, sp));
    let w = parse_number(&slice_of(&r2, 0, xx));
    let h = parse_number(&slice_of(&r2, xx + 1, r2.len()));
    let x = match x {
        Ok(x) => x,
        Err(e) => {
            return Err(ParseRuleError::InvalidNumber(e));
        },
    };
    let y = match y {
        Ok(y) => y,
        Err(e) => {
            return Err(ParseRuleError::InvalidNumber(e));
        },
    };
    let w = match w {
        Ok(w) => w,
        Err(e) => {
            return Err(ParseRuleError::InvalidNumber(e));
        },
    };
    let h = match h {
        Ok(h) => h,
        Err(e) => {
            return Err(ParseRuleError::InvalidNumber(e));
        },
    };
    Ok(Region { x, y, width: w, height: h })
}

} // verus!
