//! Text: decimal numbers, fixed-point numbers and joined lists.
//!
//! Quantities are whole thousandths (`i64`), so the number a caption shows is
//! the number the rule uses; rounding happens only here, and to even.

use vstd::prelude::*;
use vstd::string::*;

verus! {

/// The character for one decimal digit.
pub open spec fn digit(d: nat) -> char {
    if d == 0 {
        '0'
    } else if d == 1 {
        '1'
    } else if d == 2 {
        '2'
    } else if d == 3 {
        '3'
    } else if d == 4 {
        '4'
    } else if d == 5 {
        '5'
    } else if d == 6 {
        '6'
    } else if d == 7 {
        '7'
    } else if d == 8 {
        '8'
    } else {
        '9'
    }
}

/// `n` in decimal, without leading zeros.
pub open spec fn dec(n: nat) -> Seq<char>
    decreases n,
{
    if n < 10 {
        seq![digit(n)]
    } else {
        dec(n / 10).push(digit(n % 10))
    }
}

/// `n / d`, rounded to the nearest whole number and to even on a tie.
pub open spec fn round_even(n: nat, d: nat) -> nat {
    let q = n / d;
    let r = n % d;
    if 2 * r < d {
        q
    } else if 2 * r > d {
        q + 1
    } else {
        q + q % 2
    }
}

/// The size of a number.
pub open spec fn magnitude(v: int) -> nat {
    if v < 0 {
        (-v) as nat
    } else {
        v as nat
    }
}

/// The minus sign of a negative number, and nothing for any other.
pub open spec fn sign(v: int) -> Seq<char> {
    if v < 0 {
        seq!['-']
    } else {
        Seq::empty()
    }
}

/// A whole number in decimal.
pub open spec fn number(n: int) -> Seq<char> {
    sign(n) + dec(magnitude(n))
}

/// A number of thousandths with no decimals. The sign of a negative number
/// stays when its digits round to zero.
pub open spec fn fixed0(milli: int) -> Seq<char> {
    sign(milli) + dec(round_even(magnitude(milli), 1000))
}

/// A number of thousandths with one decimal.
pub open spec fn fixed1(milli: int) -> Seq<char> {
    let tenths = round_even(magnitude(milli), 100);
    sign(milli) + dec(tenths / 10) + seq!['.', digit(tenths % 10)]
}

/// `n` in decimal, padded with zeros to `width` digits.
pub open spec fn padded(n: nat, width: nat) -> Seq<char> {
    let digits = dec(n);
    if digits.len() < width {
        Seq::new((width - digits.len()) as nat, |i: int| '0') + digits
    } else {
        digits
    }
}

/// The parts, one after the other, with `sep` between neighbours.
pub open spec fn joined(parts: Seq<Seq<char>>, sep: Seq<char>) -> Seq<char>
    decreases parts.len(),
{
    if parts.len() == 0 {
        Seq::empty()
    } else if parts.len() == 1 {
        parts[0]
    } else {
        joined(parts.drop_last(), sep) + sep + parts.last()
    }
}

/// The texts of a list of strings.
pub open spec fn texts(list: Seq<String>) -> Seq<Seq<char>> {
    list.map_values(|s: String| s@)
}

/// The number a digit stands for.
pub open spec fn digit_value(c: char) -> nat {
    if c == '0' {
        0
    } else if c == '1' {
        1
    } else if c == '2' {
        2
    } else if c == '3' {
        3
    } else if c == '4' {
        4
    } else if c == '5' {
        5
    } else if c == '6' {
        6
    } else if c == '7' {
        7
    } else if c == '8' {
        8
    } else {
        9
    }
}

/// The number a row of digits stands for.
pub open spec fn value(s: Seq<char>) -> nat
    decreases s.len(),
{
    if s.len() == 0 {
        0
    } else {
        10 * value(s.drop_last()) + digit_value(s.last())
    }
}

/// Whether a text is digits and nothing else.
pub open spec fn all_digits(s: Seq<char>) -> bool {
    forall|i: int| 0 <= i < s.len() ==> (#[trigger] s[i]) == digit(digit_value(s[i]))
}

/// A number in decimal reads back as that number, and so does a padded one.
pub proof fn decimals_read_back(n: nat, width: nat)
    ensures
        value(dec(n)) == n,
        value(padded(n, width)) == n,
        all_digits(dec(n)),
        all_digits(padded(n, width)),
{
    decimal_reads_back(n);
    let digits = dec(n);
    if digits.len() < width {
        let zeros = Seq::new((width - digits.len()) as nat, |i: int| '0');
        zeros_count_nothing(zeros, digits);
        assert forall|i: int| 0 <= i < (zeros + digits).len() implies (#[trigger] (zeros
            + digits)[i]) == digit(digit_value((zeros + digits)[i])) by {
            if i >= zeros.len() {
                assert((zeros + digits)[i] == digits[i - zeros.len()]);
            }
        }
    }
}

proof fn decimal_reads_back(n: nat)
    ensures
        value(dec(n)) == n,
        all_digits(dec(n)),
    decreases n,
{
    if n < 10 {
        let s = seq![digit(n)];
        assert(s.drop_last() =~= Seq::empty());
        assert(value(s.drop_last()) == 0);
        assert(s.last() == digit(n));
        assert(digit_value(digit(n)) == n);
    } else {
        decimal_reads_back(n / 10);
        let front = dec(n / 10);
        let s = front.push(digit(n % 10));
        assert(s.drop_last() =~= front);
        assert(digit_value(digit(n % 10)) == n % 10);
        assert forall|i: int| 0 <= i < s.len() implies (#[trigger] s[i]) == digit(
            digit_value(s[i]),
        ) by {
            if i < front.len() {
                assert(s[i] == front[i]);
            }
        }
    }
}

proof fn zeros_count_nothing(zeros: Seq<char>, s: Seq<char>)
    requires
        forall|i: int| 0 <= i < zeros.len() ==> zeros[i] == '0',
    ensures
        value(zeros + s) == value(s),
    decreases zeros.len() + s.len(),
{
    if s.len() == 0 {
        assert(zeros + s =~= zeros);
        if zeros.len() > 0 {
            let front = zeros.drop_last();
            zeros_count_nothing(front, Seq::empty());
            assert(front + Seq::empty() =~= front);
        }
    } else {
        assert((zeros + s).drop_last() =~= zeros + s.drop_last());
        zeros_count_nothing(zeros, s.drop_last());
    }
}

fn push_digit(out: &mut String, d: u64)
    requires
        d < 10,
    ensures
        final(out)@ == old(out)@.push(digit(d as nat)),
{
    proof {
        reveal_strlit("0");
        reveal_strlit("1");
        reveal_strlit("2");
        reveal_strlit("3");
        reveal_strlit("4");
        reveal_strlit("5");
        reveal_strlit("6");
        reveal_strlit("7");
        reveal_strlit("8");
        reveal_strlit("9");
    }
    let s: &str = if d == 0 {
        "0"
    } else if d == 1 {
        "1"
    } else if d == 2 {
        "2"
    } else if d == 3 {
        "3"
    } else if d == 4 {
        "4"
    } else if d == 5 {
        "5"
    } else if d == 6 {
        "6"
    } else if d == 7 {
        "7"
    } else if d == 8 {
        "8"
    } else {
        "9"
    };
    out.append(s);
    assert(out@ =~= old(out)@.push(digit(d as nat)));
}

/// Appends `n` in decimal.
pub fn push_dec(out: &mut String, n: u64)
    ensures
        final(out)@ == old(out)@ + dec(n as nat),
    decreases n,
{
    if n < 10 {
        push_digit(out, n);
        assert(out@ =~= old(out)@ + dec(n as nat));
    } else {
        push_dec(out, n / 10);
        push_digit(out, n % 10);
        assert(out@ =~= old(out)@ + dec(n as nat));
    }
}

fn round_even_exec(n: u64, d: u64) -> (r: u64)
    requires
        0 < d <= 1000,
    ensures
        r == round_even(n as nat, d as nat),
{
    let q: u64 = n / d;
    let r: u64 = n % d;
    assert(q <= n);
    if d > 1 {
        assert(q <= n / 2) by (nonlinear_arith)
            requires
                d >= 2,
                q == n / d,
        ;
    } else {
        assert(r == 0);
    }
    if 2 * r < d {
        q
    } else if 2 * r > d {
        q + 1
    } else {
        q + q % 2
    }
}

/// A share of a whole as a percentage, rounded to even on a tie.
pub fn percent_of(part: u64, whole: u64) -> (r: u64)
    requires
        0 < whole,
        part <= whole,
    ensures
        r == round_even(100 * part as nat, whole as nat),
        r <= 100,
{
    let n: u128 = 100 * part as u128;
    let d: u128 = whole as u128;
    let q: u128 = n / d;
    let r: u128 = n % d;
    assert(q <= 100 && (q == 100 ==> r == 0)) by (nonlinear_arith)
        requires
            n <= 100 * d,
            q == n / d,
            r == n % d,
            d > 0,
    ;
    if 2 * r < d {
        q as u64
    } else if 2 * r > d {
        (q + 1) as u64
    } else {
        (q + q % 2) as u64
    }
}

fn magnitude_exec(v: i64) -> (r: u64)
    ensures
        r == magnitude(v as int),
{
    if v == i64::MIN {
        0x8000_0000_0000_0000
    } else if v < 0 {
        (-v) as u64
    } else {
        v as u64
    }
}

fn push_sign(out: &mut String, v: i64)
    ensures
        final(out)@ == old(out)@ + sign(v as int),
{
    if v < 0 {
        proof {
            reveal_strlit("-");
        }
        out.append("-");
        assert(out@ =~= old(out)@ + sign(v as int));
    } else {
        assert(out@ =~= old(out)@ + sign(v as int));
    }
}

/// Appends a whole number in decimal.
pub fn push_number(out: &mut String, n: i64)
    ensures
        final(out)@ == old(out)@ + number(n as int),
{
    push_sign(out, n);
    push_dec(out, magnitude_exec(n));
    assert(out@ =~= old(out)@ + number(n as int));
}

/// Appends a number of thousandths with no decimals.
pub fn push_fixed0(out: &mut String, milli: i64)
    ensures
        final(out)@ == old(out)@ + fixed0(milli as int),
{
    push_sign(out, milli);
    let whole: u64 = round_even_exec(magnitude_exec(milli), 1000);
    push_dec(out, whole);
    assert(out@ =~= old(out)@ + fixed0(milli as int));
}

/// Appends an unsigned number of thousandths with no decimals.
pub fn push_thousandths(out: &mut String, milli: u64)
    ensures
        final(out)@ == old(out)@ + dec(round_even(milli as nat, 1000)),
{
    let whole: u64 = round_even_exec(milli, 1000);
    push_dec(out, whole);
}

/// Appends a number of thousandths with one decimal.
pub fn push_fixed1(out: &mut String, milli: i64)
    ensures
        final(out)@ == old(out)@ + fixed1(milli as int),
{
    push_sign(out, milli);
    let tenths: u64 = round_even_exec(magnitude_exec(milli), 100);
    push_dec(out, tenths / 10);
    proof {
        reveal_strlit(".");
    }
    out.append(".");
    push_digit(out, tenths % 10);
    assert(out@ =~= old(out)@ + fixed1(milli as int));
}

fn dec_len(n: u64) -> (len: u64)
    ensures
        len == dec(n as nat).len(),
        len <= 20,
{
    let mut rest: u64 = n;
    let mut len: u64 = 1;
    let ghost mut bound: int = 0x1_0000_0000_0000_0000;
    while rest >= 10
        invariant
            dec(n as nat).len() == dec(rest as nat).len() + len - 1,
            1 <= len,
            rest < bound,
            (len == 1 && bound == 0x1_0000_0000_0000_0000) || (len == 2 && bound
                == 1_844_674_407_370_955_162) || (len == 3 && bound == 184_467_440_737_095_517)
                || (len == 4 && bound == 18_446_744_073_709_552) || (len == 5 && bound
                == 1_844_674_407_370_956) || (len == 6 && bound == 184_467_440_737_096) || (len == 7
                && bound == 18_446_744_073_710) || (len == 8 && bound == 1_844_674_407_371) || (len
                == 9 && bound == 184_467_440_738) || (len == 10 && bound == 18_446_744_074) || (len
                == 11 && bound == 1_844_674_408) || (len == 12 && bound == 184_467_441) || (len
                == 13 && bound == 18_446_745) || (len == 14 && bound == 1_844_675) || (len == 15
                && bound == 184_468) || (len == 16 && bound == 18_447) || (len == 17 && bound
                == 1_845) || (len == 18 && bound == 185) || (len == 19 && bound == 19) || (len == 20
                && bound == 2),
        decreases rest,
    {
        rest = rest / 10;
        len = len + 1;
        proof {
            bound = (bound + 9) / 10;
        }
    }
    len
}

/// Appends `n` in decimal, padded with zeros to `width` digits.
pub fn push_padded(out: &mut String, n: u64, width: u64)
    ensures
        final(out)@ == old(out)@ + padded(n as nat, width as nat),
{
    let len: u64 = dec_len(n);
    let mut i: u64 = len;
    while i < width
        invariant
            len <= i,
            i <= width || i == len,
            out@ == old(out)@ + Seq::new((i - len) as nat, |j: int| '0'),
        decreases width - i,
    {
        push_digit(out, 0);
        i = i + 1;
        assert(out@ =~= old(out)@ + Seq::new((i - len) as nat, |j: int| '0'));
    }
    push_dec(out, n);
    assert(out@ =~= old(out)@ + padded(n as nat, width as nat));
}

/// `n` in decimal.
pub fn dec_text(n: u64) -> (r: String)
    ensures
        r@ == dec(n as nat),
{
    let mut out = String::new();
    push_dec(&mut out, n);
    assert(out@ =~= dec(n as nat));
    out
}

/// A copy of `s` as an owned string.
pub fn owned(s: &str) -> (r: String)
    ensures
        r@ == s@,
{
    s.to_owned()
}

/// Appends a text to a list of strings.
pub fn push_text(list: &mut Vec<String>, s: String)
    ensures
        texts(final(list)@) == texts(old(list)@).push(s@),
{
    list.push(s);
    assert(texts(list@) =~= texts(old(list)@).push(s@));
}

/// The parts, one after the other, with `sep` between neighbours.
pub fn join(parts: &Vec<String>, sep: &str) -> (r: String)
    ensures
        r@ == joined(texts(parts@), sep@),
{
    let mut out = String::new();
    let mut i: usize = 0;
    while i < parts.len()
        invariant
            0 <= i <= parts.len(),
            out@ == joined(texts(parts@.take(i as int)), sep@),
        decreases parts.len() - i,
    {
        let ghost before = texts(parts@.take(i as int));
        let ghost after = texts(parts@.take(i + 1));
        assert(after.drop_last() =~= before);
        assert(after.last() == parts@[i as int]@);
        if i > 0 {
            out.append(sep);
        }
        out.append(parts[i].as_str());
        assert(out@ =~= joined(after, sep@));
        i = i + 1;
    }
    assert(parts@.take(i as int) =~= parts@);
    out
}

/// Whether two strings hold the same text.
pub fn same_text(a: &str, b: &str) -> (r: bool)
    ensures
        r == (a@ == b@),
{
    let la: usize = a.unicode_len();
    let lb: usize = b.unicode_len();
    if la != lb {
        return false;
    }
    let mut i: usize = 0;
    while i < la
        invariant
            la == a@.len(),
            lb == b@.len(),
            la == lb,
            i <= la,
            forall|j: int| 0 <= j < i ==> a@[j] == b@[j],
        decreases la - i,
    {
        if a.get_char(i) != b.get_char(i) {
            return false;
        }
        i = i + 1;
    }
    assert(a@ =~= b@);
    true
}

/// Dictionary order, by code point.
pub open spec fn text_le(a: Seq<char>, b: Seq<char>) -> bool
    decreases a.len(),
{
    if a.len() == 0 {
        true
    } else if b.len() == 0 {
        false
    } else if a[0] as u32 != b[0] as u32 {
        (a[0] as u32) < (b[0] as u32)
    } else {
        text_le(a.skip(1), b.skip(1))
    }
}

pub proof fn text_le_total(a: Seq<char>, b: Seq<char>)
    ensures
        text_le(a, b) || text_le(b, a),
    decreases a.len(),
{
    if a.len() > 0 && b.len() > 0 {
        text_le_total(a.skip(1), b.skip(1));
    }
}

pub proof fn text_le_transitive(a: Seq<char>, b: Seq<char>, c: Seq<char>)
    requires
        text_le(a, b),
        text_le(b, c),
    ensures
        text_le(a, c),
    decreases a.len(),
{
    if a.len() > 0 && a[0] as u32 == b[0] as u32 && b[0] as u32 == c[0] as u32 {
        text_le_transitive(a.skip(1), b.skip(1), c.skip(1));
    }
}

/// Texts that neither comes after the other are one text.
pub proof fn text_le_antisymmetric(a: Seq<char>, b: Seq<char>)
    requires
        text_le(a, b),
        text_le(b, a),
    ensures
        a == b,
    decreases a.len(),
{
    if a.len() > 0 {
        vstd::utf8::char_u32_cast(a[0], a[0] as u32);
        vstd::utf8::char_u32_cast(b[0], a[0] as u32);
        text_le_antisymmetric(a.skip(1), b.skip(1));
        assert(a =~= seq![a[0]] + a.skip(1));
        assert(b =~= seq![b[0]] + b.skip(1));
    } else {
        assert(a =~= b);
    }
}

/// Whether `a` comes before `b` in dictionary order, or is `b`.
pub fn text_not_after(a: &str, b: &str) -> (r: bool)
    ensures
        r == text_le(a@, b@),
{
    let la: usize = a.unicode_len();
    let lb: usize = b.unicode_len();
    let mut i: usize = 0;
    proof {
        assert(a@.skip(0) =~= a@);
        assert(b@.skip(0) =~= b@);
    }
    while i < la && i < lb
        invariant
            la == a@.len(),
            lb == b@.len(),
            i <= la,
            i <= lb,
            text_le(a@, b@) == text_le(a@.skip(i as int), b@.skip(i as int)),
        decreases la - i,
    {
        let ca: u32 = a.get_char(i) as u32;
        let cb: u32 = b.get_char(i) as u32;
        assert(a@.skip(i as int).skip(1) =~= a@.skip(i + 1));
        assert(b@.skip(i as int).skip(1) =~= b@.skip(i + 1));
        if ca != cb {
            return ca < cb;
        }
        i = i + 1;
    }
    i == la
}

/// Where a text goes in an ordered list: behind every text not after it.
pub open spec fn text_place(s: Seq<Seq<char>>, x: Seq<char>) -> int
    decreases s.len(),
{
    if s.len() == 0 || text_le(s.last(), x) {
        s.len() as int
    } else {
        text_place(s.drop_last(), x)
    }
}

/// The texts in dictionary order.
pub open spec fn alphabetical(s: Seq<Seq<char>>) -> Seq<Seq<char>>
    decreases s.len(),
{
    if s.len() == 0 {
        Seq::empty()
    } else {
        let front = alphabetical(s.drop_last());
        front.insert(text_place(front, s.last()), s.last())
    }
}

pub open spec fn text_ascending(s: Seq<Seq<char>>) -> bool {
    forall|i: int, j: int|
        0 <= i <= j < s.len() ==> text_le(#[trigger] s[i], #[trigger] s[j])
}

proof fn text_place_splits(s: Seq<Seq<char>>, x: Seq<char>)
    requires
        text_ascending(s),
    ensures
        0 <= text_place(s, x) <= s.len(),
        forall|i: int| 0 <= i < text_place(s, x) ==> text_le(#[trigger] s[i], x),
        forall|i: int| text_place(s, x) <= i < s.len() ==> text_le(x, #[trigger] s[i]),
    decreases s.len(),
{
    if s.len() > 0 {
        if text_le(s.last(), x) {
            assert forall|i: int| 0 <= i < s.len() implies text_le(#[trigger] s[i], x) by {
                assert(s[s.len() - 1] == s.last());
                text_le_transitive(s[i], s.last(), x);
            }
        } else {
            let front = s.drop_last();
            assert forall|i: int, j: int| 0 <= i <= j < front.len() implies text_le(
                #[trigger] front[i],
                #[trigger] front[j],
            ) by {
                assert(front[i] == s[i] && front[j] == s[j]);
            }
            text_place_splits(front, x);
            text_le_total(s.last(), x);
            assert forall|i: int| 0 <= i < text_place(s, x) implies text_le(
                #[trigger] s[i],
                x,
            ) by {
                assert(front[i] == s[i]);
            }
            assert forall|i: int| text_place(s, x) <= i < s.len() implies text_le(
                x,
                #[trigger] s[i],
            ) by {
                if i < s.len() - 1 {
                    assert(front[i] == s[i]);
                }
            }
        }
    }
}

/// Putting texts in dictionary order keeps them all and orders them.
pub proof fn alphabetical_sorts(s: Seq<Seq<char>>)
    ensures
        text_ascending(alphabetical(s)),
        alphabetical(s).to_multiset() == s.to_multiset(),
        alphabetical(s).len() == s.len(),
    decreases s.len(),
{
    broadcast use vstd::seq_lib::group_to_multiset_ensures;

    if s.len() == 0 {
        assert(alphabetical(s) =~= s);
    } else {
        let front = alphabetical(s.drop_last());
        alphabetical_sorts(s.drop_last());
        let x = s.last();
        let p = text_place(front, x);
        text_place_splits(front, x);
        let r = front.insert(p, x);
        assert forall|i: int, j: int| 0 <= i <= j < r.len() implies text_le(
            #[trigger] r[i],
            #[trigger] r[j],
        ) by {
            if i < p {
                assert(r[i] == front[i]);
            } else if i > p {
                assert(r[i] == front[i - 1]);
            }
            if j < p {
                assert(r[j] == front[j]);
            } else if j > p {
                assert(r[j] == front[j - 1]);
            }
            if i == p && j == p {
                text_le_total(x, x);
            }
        }
        assert(s =~= s.drop_last().push(x));
        assert(front.insert(p, x).to_multiset() == front.to_multiset().insert(x));
        assert(s.to_multiset() == s.drop_last().to_multiset().insert(x));
    }
}

spec fn dictionary() -> spec_fn(Seq<char>, Seq<char>) -> bool {
    |a: Seq<char>, b: Seq<char>| text_le(a, b)
}

/// Dictionary order forgets the order the texts came in.
pub proof fn alphabetical_forgets(s: Seq<Seq<char>>, t: Seq<Seq<char>>)
    requires
        s.to_multiset() == t.to_multiset(),
    ensures
        alphabetical(s) == alphabetical(t),
{
    alphabetical_sorts(s);
    alphabetical_sorts(t);
    let le = dictionary();
    assert forall|a: Seq<char>| #[trigger] le(a, a) by {
        text_le_total(a, a);
    }
    assert forall|a: Seq<char>, b: Seq<char>| #[trigger] le(a, b) && #[trigger] le(b, a) implies a
        == b by {
        text_le_antisymmetric(a, b);
    }
    assert forall|a: Seq<char>, b: Seq<char>, c: Seq<char>| #[trigger] le(a, b) && #[trigger] le(
        b,
        c,
    ) implies le(a, c) by {
        text_le_transitive(a, b, c);
    }
    assert forall|a: Seq<char>, b: Seq<char>| #[trigger] le(a, b) || #[trigger] le(b, a) by {
        text_le_total(a, b);
    }
    let x = alphabetical(s);
    let y = alphabetical(t);
    assert(vstd::relations::sorted_by(x, le)) by {
        assert forall|i: int, j: int| 0 <= i < j < x.len() implies #[trigger] le(x[i], x[j]) by {}
    }
    assert(vstd::relations::sorted_by(y, le)) by {
        assert forall|i: int, j: int| 0 <= i < j < y.len() implies #[trigger] le(y[i], y[j]) by {}
    }
    vstd::seq_lib::lemma_sorted_unique(x, y, le);
}

/// Puts texts in dictionary order.
pub fn order_texts(list: &Vec<String>) -> (r: Vec<String>)
    ensures
        texts(r@) == alphabetical(texts(list@)),
{
    let mut out: Vec<String> = Vec::new();
    let mut i: usize = 0;
    let ghost all = texts(list@);
    assert(texts(out@) =~= alphabetical(all.take(0)));
    while i < list.len()
        invariant
            i <= list.len(),
            all == texts(list@),
            texts(out@) == alphabetical(all.take(i as int)),
            out.len() == i,
        decreases list.len() - i,
    {
        let x = list[i].clone();
        let ghost whole = texts(out@);
        proof {
            alphabetical_sorts(all.take(i as int));
            assert(all.take(i + 1).drop_last() =~= all.take(i as int));
            assert(all.take(i + 1).last() == x@);
        }
        let mut p: usize = out.len();
        assert(whole.take(p as int) =~= whole);
        while p > 0 && !text_not_after(out[p - 1].as_str(), x.as_str())
            invariant
                p <= out.len(),
                texts(out@) == whole,
                out.len() == whole.len(),
                text_place(whole, x@) == text_place(whole.take(p as int), x@),
            decreases p,
        {
            assert(whole.take(p as int).drop_last() =~= whole.take(p - 1));
            p = p - 1;
        }
        proof {
            if p > 0 {
                assert(whole.take(p as int).last() == out@[p - 1]@);
            }
            assert(p == text_place(whole, x@));
        }
        out.insert(p, x);
        assert(texts(out@) =~= whole.insert(p as int, x@));
        i = i + 1;
    }
    assert(all.take(i as int) =~= all);
    out
}

} // verus!
