//! Character-level text helpers for the save format: searching, whitespace
//! trimming, and reading and writing unsigned decimal numbers.

use vstd::prelude::*;

verus! {

// ── Searching ────────────────────────────────────────────────────────────────

/// Index of the first `c` in `s`.
pub open spec fn find(s: Seq<char>, c: char) -> Option<int>
    decreases s.len(),
{
    if s.len() == 0 {
        None
    } else if s[0] == c {
        Some(0)
    } else {
        match find(s.drop_first(), c) {
            Some(i) => Some(i + 1),
            None => None,
        }
    }
}

/// `find` returns the first position holding `c`, if any.
pub proof fn lemma_find(s: Seq<char>, c: char, k: int)
    requires
        0 <= k <= s.len(),
        forall|j: int| 0 <= j < k ==> s[j] != c,
        k == s.len() || s[k] == c,
    ensures
        find(s, c) == (if k == s.len() {
            None::<int>
        } else {
            Some(k)
        }),
    decreases k,
{
    if s.len() > 0 && k > 0 {
        lemma_find(s.drop_first(), c, k - 1);
    }
}

/// First position of `c` in `text[lo..hi]`, counted from the start of `text`.
pub fn find_in(text: &Vec<char>, lo: usize, hi: usize, c: char) -> (pos: Option<usize>)
    requires
        lo <= hi <= text@.len(),
    ensures
        match pos {
            Some(p) => lo <= p < hi && find(text@.subrange(lo as int, hi as int), c) == Some(p - lo),
            None => find(text@.subrange(lo as int, hi as int), c) == None::<int>,
        },
{
    let ghost sub = text@.subrange(lo as int, hi as int);
    let mut i = lo;
    while i < hi
        invariant
            lo <= i <= hi <= text@.len(),
            sub == text@.subrange(lo as int, hi as int),
            forall|j: int| lo <= j < i ==> text@[j] != c,
        decreases hi - i,
    {
        if text[i] == c {
            proof {
                lemma_find(sub, c, i - lo);
            }
            return Some(i);
        }
        i += 1;
    }
    proof {
        lemma_find(sub, c, hi - lo);
    }
    None
}

// ── Whitespace ───────────────────────────────────────────────────────────────

/// Unicode `White_Space`, as `char::is_whitespace` defines it.
pub open spec fn is_ws(c: char) -> bool {
    let u = c as u32;
    ||| 9 <= u <= 13
    ||| u == 32
    ||| u == 0x85
    ||| u == 0xA0
    ||| u == 0x1680
    ||| 0x2000 <= u <= 0x200A
    ||| u == 0x2028
    ||| u == 0x2029
    ||| u == 0x202F
    ||| u == 0x205F
    ||| u == 0x3000
}

pub fn is_whitespace(c: char) -> (ws: bool)
    ensures
        ws == is_ws(c),
{
    let u = c as u32;
    (9 <= u && u <= 13) || u == 32 || u == 0x85 || u == 0xA0 || u == 0x1680 || (0x2000 <= u && u
        <= 0x200A) || u == 0x2028 || u == 0x2029 || u == 0x202F || u == 0x205F || u == 0x3000
}

/// `s` without its leading whitespace.
pub open spec fn trim_start(s: Seq<char>) -> Seq<char>
    decreases s.len(),
{
    if s.len() > 0 && is_ws(s[0]) {
        trim_start(s.drop_first())
    } else {
        s
    }
}

/// `s` without its trailing whitespace.
pub open spec fn trim_end(s: Seq<char>) -> Seq<char>
    decreases s.len(),
{
    if s.len() > 0 && is_ws(s.last()) {
        trim_end(s.drop_last())
    } else {
        s
    }
}

/// `s` without leading and trailing whitespace, as `str::trim` gives it.
pub open spec fn trim(s: Seq<char>) -> Seq<char> {
    trim_end(trim_start(s))
}

pub proof fn lemma_trim_start(s: Seq<char>, k: int)
    requires
        0 <= k <= s.len(),
        forall|j: int| 0 <= j < k ==> is_ws(s[j]),
        k == s.len() || !is_ws(s[k]),
    ensures
        trim_start(s) == s.skip(k),
    decreases k,
{
    if k > 0 {
        lemma_trim_start(s.drop_first(), k - 1);
        assert(s.drop_first().skip(k - 1) =~= s.skip(k));
    } else {
        assert(s.skip(0) =~= s);
    }
}

pub proof fn lemma_trim_end(s: Seq<char>, k: int)
    requires
        0 <= k <= s.len(),
        forall|j: int| k <= j < s.len() ==> is_ws(s[j]),
        k == 0 || !is_ws(s[k - 1]),
    ensures
        trim_end(s) == s.take(k),
    decreases s.len() - k,
{
    if k < s.len() {
        lemma_trim_end(s.drop_last(), k);
        assert(s.drop_last().take(k) =~= s.take(k));
    } else {
        assert(s.take(k) =~= s);
    }
}

/// Text that neither starts nor ends with whitespace is its own trim.
pub proof fn lemma_trim_clean(s: Seq<char>)
    requires
        s.len() == 0 || (!is_ws(s[0]) && !is_ws(s.last())),
    ensures
        trim(s) == s,
{
    lemma_trim_start(s, 0);
    assert(s.skip(0) =~= s);
    lemma_trim_end(s, s.len() as int);
    assert(s.take(s.len() as int) =~= s);
}

/// Bounds of the trimmed text of `text[lo..hi]`.
pub fn trim_in(text: &Vec<char>, lo: usize, hi: usize) -> (bounds: (usize, usize))
    requires
        lo <= hi <= text@.len(),
    ensures
        lo <= bounds.0 <= bounds.1 <= hi,
        text@.subrange(bounds.0 as int, bounds.1 as int) == trim(text@.subrange(lo as int, hi as int)),
{
    let ghost sub = text@.subrange(lo as int, hi as int);
    let mut a = lo;
    while a < hi && is_whitespace(text[a])
        invariant
            lo <= a <= hi <= text@.len(),
            forall|j: int| lo <= j < a ==> is_ws(text@[j]),
        decreases hi - a,
    {
        a += 1;
    }
    proof {
        lemma_trim_start(sub, a - lo);
        assert(sub.skip(a - lo) =~= text@.subrange(a as int, hi as int));
    }
    let ghost mid = text@.subrange(a as int, hi as int);
    let mut b = hi;
    while b > a && is_whitespace(text[b - 1])
        invariant
            lo <= a <= b <= hi <= text@.len(),
            forall|j: int| b <= j < hi ==> is_ws(text@[j]),
        decreases b - a,
    {
        b -= 1;
    }
    proof {
        lemma_trim_end(mid, b - a);
        assert(mid.take(b - a) =~= text@.subrange(a as int, b as int));
    }
    (a, b)
}

// ── Decimal numbers ──────────────────────────────────────────────────────────

pub open spec fn is_digit(c: char) -> bool {
    48 <= (c as u32) <= 57
}

pub open spec fn digit_value(c: char) -> nat {
    ((c as u32) - 48) as nat
}

pub open spec fn all_digits(s: Seq<char>) -> bool {
    forall|i: int| 0 <= i < s.len() ==> is_digit(#[trigger] s[i])
}

/// The number written by the decimal digits `s`, most significant first.
pub open spec fn digits_value(s: Seq<char>) -> nat
    decreases s.len(),
{
    if s.len() == 0 {
        0
    } else {
        digits_value(s.drop_last()) * 10 + digit_value(s.last())
    }
}

/// What `str::parse::<u32>` reads from `s`: an optional `+` followed by one or
/// more decimal digits whose value fits in a `u32`.
pub open spec fn parse_u32(s: Seq<char>) -> Option<u32> {
    let body = if s.len() > 0 && s[0] == '+' {
        s.drop_first()
    } else {
        s
    };
    if body.len() > 0 && all_digits(body) && digits_value(body) <= u32::MAX {
        Some(digits_value(body) as u32)
    } else {
        None
    }
}

pub open spec fn digit_char(d: nat) -> char {
    if d == 0 {
        '0'
    } else if d == 1 {
        '1'
    } else if d == 2 {
        '2'
    } else if d == 3 {
        '3'
    } else if d == 4 {
        '4'
    } else if d == 5 {
        '5'
    } else if d == 6 {
        '6'
    } else if d == 7 {
        '7'
    } else if d == 8 {
        '8'
    } else {
        '9'
    }
}

/// Decimal text of `n` without leading zeros, as `{}` formats an integer.
pub open spec fn decimal(n: nat) -> Seq<char>
    decreases n,
{
    if n < 10 {
        seq![digit_char(n)]
    } else {
        decimal(n / 10).push(digit_char(n % 10))
    }
}

proof fn lemma_digit_char(d: nat)
    requires
        d < 10,
    ensures
        is_digit(digit_char(d)),
        digit_value(digit_char(d)) == d,
        !is_ws(digit_char(d)),
        digit_char(d) != '+',
{
}

/// Decimal text is all digits, starts with a digit, and reads back as `n`.
pub proof fn lemma_decimal(n: nat)
    ensures
        decimal(n).len() > 0,
        all_digits(decimal(n)),
        digits_value(decimal(n)) == n,
        is_digit(decimal(n)[0]),
        is_digit(decimal(n).last()),
    decreases n,
{
    if n < 10 {
        lemma_digit_char(n);
        assert(decimal(n).drop_last() =~= Seq::<char>::empty());
        assert(digits_value(decimal(n)) == digits_value(Seq::<char>::empty()) * 10 + digit_value(digit_char(n)));
    } else {
        lemma_decimal(n / 10);
        lemma_digit_char(n % 10);
        let s = decimal(n);
        assert(s.drop_last() =~= decimal(n / 10));
        assert forall|i: int| 0 <= i < s.len() implies is_digit(#[trigger] s[i]) by {
            if i < s.len() - 1 {
                assert(s[i] == decimal(n / 10)[i]);
            }
        }
        assert(s[0] == decimal(n / 10)[0]);
        assert(s.last() == digit_char(n % 10));
        assert(digits_value(s) == digits_value(decimal(n / 10)) * 10 + digit_value(s.last()));
        assert(n == (n / 10) * 10 + n % 10);
    }
}

/// Printing a `u32` in decimal and parsing it back gives the same number.
pub proof fn lemma_parse_decimal(n: u32)
    ensures
        parse_u32(decimal(n as nat)) == Some(n),
{
    lemma_decimal(n as nat);
    let s = decimal(n as nat);
    assert(s[0] != '+');
}

/// A prefix of digits never reads as more than the whole.
proof fn lemma_digits_prefix(s: Seq<char>, i: int)
    requires
        0 <= i <= s.len(),
        all_digits(s),
    ensures
        digits_value(s.take(i)) <= digits_value(s),
    decreases s.len() - i,
{
    if i < s.len() {
        lemma_digits_prefix(s.drop_last(), if i < s.len() { i } else { i - 1 });
        assert(s.drop_last().take(i) =~= s.take(i));
        assert(digits_value(s.drop_last()) <= digits_value(s)) by (nonlinear_arith)
            requires
                digits_value(s) == digits_value(s.drop_last()) * 10 + digit_value(s.last()),
        ;
    } else {
        assert(s.take(i) =~= s);
    }
}

/// Reads a `u32` from `text[lo..hi]` the way `str::parse::<u32>` does.
pub fn parse_u32_in(text: &Vec<char>, lo: usize, hi: usize) -> (value: Option<u32>)
    requires
        lo <= hi <= text@.len(),
    ensures
        value == parse_u32(text@.subrange(lo as int, hi as int)),
{
    let ghost s = text@.subrange(lo as int, hi as int);
    let mut start = lo;
    if lo < hi && text[lo] == '+' {
        start = lo + 1;
    }
    let ghost body = text@.subrange(start as int, hi as int);
    assert(body == (if s.len() > 0 && s[0] == '+' { s.drop_first() } else { s }));
    if start == hi {
        return None;
    }
    let mut acc: u64 = 0;
    let mut i = start;
    while i < hi
        invariant
            lo <= start <= i <= hi <= text@.len(),
            s == text@.subrange(lo as int, hi as int),
            body == (if s.len() > 0 && s[0] == '+' { s.drop_first() } else { s }),
            body == text@.subrange(start as int, hi as int),
            all_digits(body.take(i - start)),
            acc == digits_value(body.take(i - start)),
            acc <= u32::MAX,
        decreases hi - i,
    {
        let c = text[i];
        let u = c as u32;
        if u < 48 || u > 57 {
            assert(!all_digits(body)) by {
                assert(body[i - start] == c);
            }
            return None;
        }
        let ghost prefix = body.take(i - start);
        let ghost next = body.take(i - start + 1);
        assert(next.drop_last() =~= prefix);
        assert(next.last() == c);
        acc = acc * 10 + (u - 48) as u64;
        assert forall|j: int| 0 <= j < next.len() implies is_digit(#[trigger] next[j]) by {
            if j < prefix.len() {
                assert(next[j] == prefix[j]);
            }
        }
        if acc > 4294967295 {
            proof {
                if all_digits(body) {
                    lemma_digits_prefix(body, i - start + 1);
                }
            }
            return None;
        }
        i += 1;
    }
    assert(body.take(hi - start) =~= body);
    Some(acc as u32)
}

/// Appends one character to `s`.
#[verifier::external_body]
pub fn push_char(s: &mut String, c: char)
    ensures
        final(s)@ == old(s)@.push(c),
{
    s.push(c)
}

/// Appends the decimal text of `n`.
pub fn push_decimal(out: &mut String, n: u64)
    ensures
        final(out)@ == old(out)@ + decimal(n as nat),
    decreases n,
{
    if n >= 10 {
        push_decimal(out, n / 10);
    }
    let d = n % 10;
    let c = if d == 0 {
        '0'
    } else if d == 1 {
        '1'
    } else if d == 2 {
        '2'
    } else if d == 3 {
        '3'
    } else if d == 4 {
        '4'
    } else if d == 5 {
        '5'
    } else if d == 6 {
        '6'
    } else if d == 7 {
        '7'
    } else if d == 8 {
        '8'
    } else {
        '9'
    };
    let ghost before = out@;
    push_char(out, c);
    proof {
        if n >= 10 {
            assert(out@ =~= old(out)@ + decimal(n as nat));
        } else {
            assert(out@ =~= old(out)@ + decimal(n as nat));
        }
    }
}

/// The characters of `s`, in order.
pub fn chars_of(s: &str) -> (chars: Vec<char>)
    ensures
        chars@ == s@,
{
    let n = s.unicode_len();
    let mut chars: Vec<char> = Vec::new();
    let mut i: usize = 0;
    while i < n
        invariant
            n == s@.len(),
            i <= n,
            chars@ == s@.take(i as int),
        decreases n - i,
    {
        chars.push(s.get_char(i));
        assert(chars@ =~= s@.take(i as int + 1));
        i += 1;
    }
    assert(s@.take(n as int) =~= s@);
    chars
}

/// `text[lo..hi]` holds exactly the characters of `lit`.
pub fn range_is(text: &Vec<char>, lo: usize, hi: usize, lit: &str) -> (same: bool)
    requires
        lo <= hi <= text@.len(),
    ensures
        same == (text@.subrange(lo as int, hi as int) == lit@),
{
    let n = lit.unicode_len();
    if hi - lo != n {
        return false;
    }
    let mut i: usize = 0;
    while i < n
        invariant
            n == lit@.len(),
            hi - lo == n,
            lo <= hi <= text@.len(),
            i <= n,
            forall|j: int| 0 <= j < i ==> text@[lo + j] == lit@[j],
        decreases n - i,
    {
        if text[lo + i] != lit.get_char(i) {
            assert(text@.subrange(lo as int, hi as int)[i as int] != lit@[i as int]);
            return false;
        }
        i += 1;
    }
    assert(text@.subrange(lo as int, hi as int) =~= lit@);
    true
}


/// `find` reports whether `c` occurs, and then its first position.
pub proof fn lemma_find_some(s: Seq<char>, c: char)
    ensures
        s.contains(c) <==> find(s, c) is Some,
        find(s, c) is Some ==> {
            let k = find(s, c)->0;
            &&& 0 <= k < s.len()
            &&& s[k] == c
            &&& forall|j: int| 0 <= j < k ==> s[j] != c
        },
    decreases s.len(),
{
    if s.len() > 0 {
        lemma_find_some(s.drop_first(), c);
        if s[0] != c {
            if s.contains(c) {
                let w = choose|w: int| 0 <= w < s.len() && s[w] == c;
                assert(s.drop_first()[w - 1] == c);
            }
            if s.drop_first().contains(c) {
                let w = choose|w: int| 0 <= w < s.drop_first().len() && s.drop_first()[w] == c;
                assert(s[w + 1] == c);
            }
            if find(s, c) is Some {
                let k = find(s, c)->0;
                assert forall|j: int| 0 <= j < k implies s[j] != c by {
                    if j > 0 {
                        assert(s[j] == s.drop_first()[j - 1]);
                    }
                }
            }
        } else {
            assert(s[0] == c);
        }
    }
}

/// Searching a concatenation: a hit in the first part wins; otherwise the
/// search continues into the second part.
pub proof fn lemma_find_concat(a: Seq<char>, b: Seq<char>, c: char)
    ensures
        a.contains(c) ==> find(a + b, c) == find(a, c),
        !a.contains(c) ==> find(a + b, c) == (match find(b, c) {
            Some(k) => Some(a.len() + k),
            None => None::<int>,
        }),
{
    lemma_find_some(a, c);
    lemma_find_some(b, c);
    let ab = a + b;
    if a.contains(c) {
        let k = find(a, c)->0;
        assert forall|j: int| 0 <= j < k implies ab[j] != c by {
            assert(ab[j] == a[j]);
        }
        assert(ab[k] == a[k]);
        lemma_find(ab, c, k);
    } else {
        match find(b, c) {
            Some(k) => {
                assert forall|j: int| 0 <= j < a.len() + k implies ab[j] != c by {
                    if j < a.len() {
                        assert(ab[j] == a[j]);
                    } else {
                        assert(ab[j] == b[j - a.len()]);
                    }
                }
                assert(ab[a.len() + k] == b[k]);
                lemma_find(ab, c, a.len() + k);
            },
            None => {
                assert forall|j: int| 0 <= j < ab.len() implies ab[j] != c by {
                    if j < a.len() {
                        assert(ab[j] == a[j]);
                    } else {
                        assert(ab[j] == b[j - a.len()]);
                    }
                }
                lemma_find(ab, c, ab.len() as int);
            },
        }
    }
}

/// Decimal text holds only digits, so no separator or whitespace.
pub proof fn lemma_decimal_plain(n: nat, c: char)
    requires
        !is_digit(c),
    ensures
        !decimal(n).contains(c),
        !is_ws(decimal(n)[0]),
        !is_ws(decimal(n).last()),
{
    lemma_decimal(n);
    if decimal(n).contains(c) {
        let w = choose|w: int| 0 <= w < decimal(n).len() && decimal(n)[w] == c;
        assert(is_digit(decimal(n)[w]));
    }
}


// ── Floating-point text ──────────────────────────────────────────────────────

/// `c` is the lower-case ASCII letter `lower` or its upper-case form.
pub open spec fn letter_is(c: char, lower: char) -> bool {
    c == lower || (c as u32) + 32 == lower as u32
}

/// `s` spells the lower-case ASCII word `w`, in any mix of cases.
pub open spec fn word_is(s: Seq<char>, w: Seq<char>) -> bool {
    s.len() == w.len() && forall|i: int| 0 <= i < s.len() ==> letter_is(#[trigger] s[i], w[i])
}

pub open spec fn is_sign(c: char) -> bool {
    c == '+' || c == '-'
}

/// `s` without a leading sign.
pub open spec fn unsigned(s: Seq<char>) -> Seq<char> {
    if s.len() > 0 && is_sign(s[0]) {
        s.drop_first()
    } else {
        s
    }
}

pub open spec fn is_exp_mark(c: char) -> bool {
    c == 'e' || c == 'E'
}

/// Decimal digits with at most one decimal point among them, and at least one
/// digit: `1`, `1.`, `.5`, `1.5`.
pub open spec fn mantissa(s: Seq<char>) -> bool {
    &&& forall|i: int| 0 <= i < s.len() ==> is_digit(#[trigger] s[i]) || s[i] == '.'
    &&& forall|i: int, j: int| 0 <= i < j < s.len() ==> !(#[trigger] s[i] == '.' && #[trigger] s[j] == '.')
    &&& exists|i: int| 0 <= i < s.len() && is_digit(#[trigger] s[i])
}

/// An exponent after its mark: an optional sign and one or more digits.
pub open spec fn exponent(s: Seq<char>) -> bool {
    unsigned(s).len() > 0 && all_digits(unsigned(s))
}

/// A mantissa, optionally followed by an exponent mark and an exponent.
pub open spec fn number_text(s: Seq<char>) -> bool {
    mantissa(s) || exists|k: int|
        0 <= k < s.len() && is_exp_mark(#[trigger] s[k]) && mantissa(s.take(k)) && exponent(s.skip(k + 1))
}

/// The texts `str::parse::<f32>` accepts, by the grammar its documentation
/// gives: an optional sign, then `inf`, `infinity`, `nan` (in any case) or a
/// number with an optional exponent.
pub open spec fn float_text(s: Seq<char>) -> bool {
    let b = unsigned(s);
    word_is(b, "inf"@) || word_is(b, "infinity"@) || word_is(b, "nan"@) || number_text(b)
}

/// Whether `text[lo..hi]` spells the lower-case ASCII word `w` in any case.
fn word_in(text: &Vec<char>, lo: usize, hi: usize, w: &str) -> (ok: bool)
    requires
        lo <= hi <= text@.len(),
    ensures
        ok == word_is(text@.subrange(lo as int, hi as int), w@),
{
    let ghost s = text@.subrange(lo as int, hi as int);
    let n = w.unicode_len();
    if hi - lo != n {
        return false;
    }
    let mut i: usize = 0;
    while i < n
        invariant
            n == w@.len(),
            hi - lo == n,
            lo <= hi <= text@.len(),
            s == text@.subrange(lo as int, hi as int),
            i <= n,
            forall|j: int| 0 <= j < i ==> letter_is(#[trigger] s[j], w@[j]),
        decreases n - i,
    {
        let c = text[lo + i];
        let l = w.get_char(i);
        assert(s[i as int] == c);
        let (cu, lu) = (c as u32, l as u32);
        if !(c == l || (lu >= 32 && cu == lu - 32)) {
            return false;
        }
        i += 1;
    }
    true
}

/// Whether `text[lo..hi]` is a mantissa.
fn mantissa_in(text: &Vec<char>, lo: usize, hi: usize) -> (ok: bool)
    requires
        lo <= hi <= text@.len(),
    ensures
        ok == mantissa(text@.subrange(lo as int, hi as int)),
{
    let ghost s = text@.subrange(lo as int, hi as int);
    let mut dot = false;
    let mut digit = false;
    let mut i = lo;
    while i < hi
        invariant
            lo <= i <= hi <= text@.len(),
            s == text@.subrange(lo as int, hi as int),
            forall|j: int| 0 <= j < i - lo ==> is_digit(#[trigger] s[j]) || s[j] == '.',
            forall|a: int, b: int| 0 <= a < b < i - lo ==> !(#[trigger] s[a] == '.' && #[trigger] s[b] == '.'),
            dot == exists|j: int| 0 <= j < i - lo && #[trigger] s[j] == '.',
            digit == exists|j: int| 0 <= j < i - lo && is_digit(#[trigger] s[j]),
        decreases hi - i,
    {
        let c = text[i];
        let ghost k = i - lo;
        assert(s[k] == c);
        let u = c as u32;
        if c == '.' {
            if dot {
                let ghost j = choose|j: int| 0 <= j < i - lo && #[trigger] s[j] == '.';
                assert(s[j] == '.' && s[k] == '.' && j < k);
                return false;
            }
            dot = true;
        } else if u < 48 || u > 57 {
            assert(!(is_digit(s[k]) || s[k] == '.'));
            return false;
        } else {
            digit = true;
        }
        i += 1;
    }
    digit
}

/// Whether `text[lo..hi]` is an exponent.
fn exponent_in(text: &Vec<char>, lo: usize, hi: usize) -> (ok: bool)
    requires
        lo <= hi <= text@.len(),
    ensures
        ok == exponent(text@.subrange(lo as int, hi as int)),
{
    let ghost s = text@.subrange(lo as int, hi as int);
    let mut start = lo;
    if lo < hi && (text[lo] == '+' || text[lo] == '-') {
        start = lo + 1;
    }
    let ghost body = text@.subrange(start as int, hi as int);
    assert(body =~= unsigned(s));
    if start == hi {
        return false;
    }
    let mut i = start;
    while i < hi
        invariant
            lo <= start <= i <= hi <= text@.len(),
            body == text@.subrange(start as int, hi as int),
            body == unsigned(s),
            s == text@.subrange(lo as int, hi as int),
            forall|j: int| 0 <= j < i - start ==> is_digit(#[trigger] body[j]),
        decreases hi - i,
    {
        let u = text[i] as u32;
        assert(body[i - start] == text@[i as int]);
        if u < 48 || u > 57 {
            assert(!is_digit(body[i - start]));
            return false;
        }
        i += 1;
    }
    true
}

/// Whether `text[lo..hi]` is a number, with an optional exponent.
fn number_text_in(text: &Vec<char>, lo: usize, hi: usize) -> (ok: bool)
    requires
        lo <= hi <= text@.len(),
    ensures
        ok == number_text(text@.subrange(lo as int, hi as int)),
{
    let ghost s = text@.subrange(lo as int, hi as int);
    let mut k = lo;
    while k < hi && text[k] != 'e' && text[k] != 'E'
        invariant
            lo <= k <= hi <= text@.len(),
            s == text@.subrange(lo as int, hi as int),
            forall|j: int| 0 <= j < k - lo ==> !is_exp_mark(#[trigger] s[j]),
        decreases hi - k,
    {
        assert(s[k - lo] == text@[k as int]);
        k += 1;
    }
    if k == hi {
        let ok = mantissa_in(text, lo, hi);
        assert(!exists|m: int|
            0 <= m < s.len() && is_exp_mark(#[trigger] s[m]) && mantissa(s.take(m)) && exponent(s.skip(m + 1)));
        ok
    } else {
        let ghost m0 = k - lo;
        assert(s[m0] == text@[k as int]);
        assert(is_exp_mark(s[m0]));
        let a = mantissa_in(text, lo, k);
        let b = exponent_in(text, k + 1, hi);
        assert(s.take(m0) =~= text@.subrange(lo as int, k as int));
        assert(s.skip(m0 + 1) =~= text@.subrange(k + 1, hi as int));
        assert(!mantissa(s));
        assert forall|m: int|
            0 <= m < s.len() && is_exp_mark(#[trigger] s[m]) && mantissa(s.take(m)) implies m == m0 by {
            if m > m0 {
                assert(s.take(m)[m0] == s[m0]);
            }
        }
        a && b
    }
}

/// Whether `text[lo..hi]` is a text `str::parse::<f32>` accepts.
pub fn float_text_in(text: &Vec<char>, lo: usize, hi: usize) -> (ok: bool)
    requires
        lo <= hi <= text@.len(),
    ensures
        ok == float_text(text@.subrange(lo as int, hi as int)),
{
    let ghost s = text@.subrange(lo as int, hi as int);
    let mut start = lo;
    if lo < hi && (text[lo] == '+' || text[lo] == '-') {
        start = lo + 1;
    }
    assert(text@.subrange(start as int, hi as int) =~= unsigned(s));
    word_in(text, start, hi, "inf") || word_in(text, start, hi, "infinity") || word_in(text, start, hi, "nan")
        || number_text_in(text, start, hi)
}


/// A character a number text can hold: a digit, a point, a sign or an ASCII
/// letter.
pub open spec fn plain_char(c: char) -> bool {
    let u = c as u32;
    is_digit(c) || c == '.' || is_sign(c) || (65 <= u <= 90) || (97 <= u <= 122)
}

proof fn lemma_word_plain(b: Seq<char>, w: Seq<char>)
    requires
        word_is(b, w),
        forall|i: int| 0 <= i < w.len() ==> 97 <= (#[trigger] w[i] as u32) <= 122,
    ensures
        forall|i: int| 0 <= i < b.len() ==> plain_char(#[trigger] b[i]),
{
    assert forall|i: int| 0 <= i < b.len() implies plain_char(#[trigger] b[i]) by {
        assert(letter_is(b[i], w[i]));
        assert(97 <= (w[i] as u32) <= 122);
    }
}

proof fn lemma_number_plain(b: Seq<char>)
    requires
        number_text(b),
    ensures
        forall|i: int| 0 <= i < b.len() ==> plain_char(#[trigger] b[i]),
{
    if !mantissa(b) {
        let k = choose|k: int|
            0 <= k < b.len() && is_exp_mark(#[trigger] b[k]) && mantissa(b.take(k)) && exponent(b.skip(k + 1));
        let e = b.skip(k + 1);
        assert forall|i: int| 0 <= i < b.len() implies plain_char(#[trigger] b[i]) by {
            if i < k {
                assert(b.take(k)[i] == b[i]);
            } else if i > k {
                assert(e[i - k - 1] == b[i]);
                if e.len() > 0 && is_sign(e[0]) {
                    if i > k + 1 {
                        assert(unsigned(e)[i - k - 2] == e[i - k - 1]);
                    }
                } else {
                    assert(unsigned(e)[i - k - 1] == e[i - k - 1]);
                }
            }
        }
    }
}

/// A float text holds only plain characters, so it has no line break and no
/// whitespace at either end.
pub proof fn lemma_float_text_plain(t: Seq<char>)
    requires
        float_text(t),
    ensures
        forall|i: int| 0 <= i < t.len() ==> plain_char(#[trigger] t[i]),
        !t.contains('\n'),
        t.len() == 0 || (!is_ws(t[0]) && !is_ws(t.last())),
{
    reveal_strlit("inf");
    reveal_strlit("infinity");
    reveal_strlit("nan");
    let b = unsigned(t);
    if word_is(b, "inf"@) {
        lemma_word_plain(b, "inf"@);
    } else if word_is(b, "infinity"@) {
        lemma_word_plain(b, "infinity"@);
    } else if word_is(b, "nan"@) {
        lemma_word_plain(b, "nan"@);
    } else {
        lemma_number_plain(b);
    }
    assert forall|i: int| 0 <= i < t.len() implies plain_char(#[trigger] t[i]) by {
        if t.len() > 0 && is_sign(t[0]) {
            if i > 0 {
                assert(b[i - 1] == t[i]);
            }
        } else {
            assert(b[i] == t[i]);
        }
    }
    if t.contains('\n') {
        let i = choose|i: int| 0 <= i < t.len() && t[i] == '\n';
        assert(plain_char(t[i]));
    }
    if t.len() > 0 {
        assert(plain_char(t[0]));
        assert(plain_char(t[t.len() - 1]));
    }
}

} // verus!
