//! Character-level text utilities: conversions between `String` and
//! character vectors, decimal integer parsing and formatting,
//! lexicographic comparison, substring search and ASCII case folding.

use vstd::prelude::*;

verus! {

/// The characters of a piece of text, as a vector.
pub fn str_to_chars(s: &str) -> (r: Vec<char>)
    ensures
        r@ == s@,
{
    let mut r: Vec<char> = Vec::new();
    for c in it: s.chars()
        invariant
            r@ =~= it.seq().subrange(0, it.index() as int),
            it.seq() == s@,
    {
        r.push(c);
    }
    proof {
        assert(r@ =~= s@);
    }
    r
}

/// Relies on `String`'s `FromIterator` over characters: collecting a
/// character vector yields the text with exactly those characters.
#[verifier::external_body]
pub fn chars_to_string(v: &Vec<char>) -> (r: String)
    ensures
        r@ == v@,
{
    v.iter().collect()
}

/// The lower-case form of a piece of text.
pub uninterp spec fn lower_of(s: Seq<char>) -> Seq<char>;

/// Relies on `str::to_lowercase`: the result depends on the characters
/// alone.
#[verifier::external_body]
pub fn lowercase(s: &str) -> (r: String)
    ensures
        r@ == lower_of(s@),
{
    s.to_lowercase()
}

/// Whether a character is a decimal digit.
pub open spec fn is_digit(c: char) -> bool {
    48 <= c as u32 <= 57
}

/// The numeric value of a decimal digit.
pub open spec fn digit_val(c: char) -> int {
    c as u32 - 48
}

/// Whether every character of a sequence is a decimal digit.
pub open spec fn all_digits(s: Seq<char>) -> bool {
    forall|i: int| 0 <= i < s.len() ==> is_digit(#[trigger] s[i])
}

/// The value of a sequence of decimal digits.
pub open spec fn digits_val(s: Seq<char>) -> int
    decreases s.len(),
{
    if s.len() == 0 {
        0
    } else {
        digits_val(s.drop_last()) * 10 + digit_val(s.last())
    }
}

/// A digit string's value is never negative.
pub proof fn lemma_digits_val_nonneg(s: Seq<char>)
    requires
        all_digits(s),
    ensures
        digits_val(s) >= 0,
    decreases s.len(),
{
    if s.len() > 0 {
        assert(all_digits(s.drop_last())) by {
            assert(forall|i: int|
                0 <= i < s.len() - 1 ==> s.drop_last()[i] == #[trigger] s[i]);
        }
        lemma_digits_val_nonneg(s.drop_last());
        vstd::arithmetic::mul::lemma_mul_inequality(0, digits_val(s.drop_last()), 10);
    }
}

/// Extending a digit string never shrinks its value.
pub proof fn lemma_digits_val_mono(s: Seq<char>, k: int)
    requires
        all_digits(s),
        0 <= k <= s.len(),
    ensures
        digits_val(s.subrange(0, k)) <= digits_val(s),
    decreases s.len() - k,
{
    if k < s.len() {
        lemma_digits_val_mono(s, k + 1);
        let p = s.subrange(0, k);
        let q = s.subrange(0, k + 1);
        assert(q.drop_last() =~= p);
        assert(all_digits(p)) by {
            assert(forall|i: int| 0 <= i < k ==> p[i] == #[trigger] s[i]);
        }
        lemma_digits_val_nonneg(p);
        assert(digits_val(q) == digits_val(p) * 10 + digit_val(q.last()));
        assert(digits_val(p) * 10 >= digits_val(p)) by {
            vstd::arithmetic::mul::lemma_mul_inequality(1, 10, digits_val(p));
        }
    } else {
        assert(s.subrange(0, k) =~= s);
    }
}

/// The 64-bit integer a piece of text parses to, if any: an optional
/// sign, then one or more decimal digits, the value within range.
pub open spec fn parsed_int(s: Seq<char>) -> Option<i64> {
    let body = if s.len() > 0 && (s[0] == '-' || s[0] == '+') {
        s.drop_first()
    } else {
        s
    };
    let neg = s.len() > 0 && s[0] == '-';
    if body.len() == 0 || !all_digits(body) {
        None
    } else {
        let v = if neg {
            -digits_val(body)
        } else {
            digits_val(body)
        };
        if i64::MIN <= v <= i64::MAX {
            Some(v as i64)
        } else {
            None
        }
    }
}

/// Parses a 64-bit integer from characters, exactly as `parsed_int`
/// describes.
pub fn parse_int(v: &Vec<char>) -> (r: Option<i64>)
    ensures
        r == parsed_int(v@),
{
    let n = v.len();
    let mut start: usize = 0;
    let mut neg = false;
    if n > 0 && (v[0] == '-' || v[0] == '+') {
        start = 1;
        neg = v[0] == '-';
    }
    let ghost body = if v@.len() > 0 && (v@[0] == '-' || v@[0] == '+') {
        v@.drop_first()
    } else {
        v@
    };
    proof {
        assert(body =~= v@.subrange(start as int, n as int));
    }
    if start == n {
        return None;
    }
    let mut acc: i128 = 0;
    let mut i: usize = start;
    while i < n
        invariant
            start <= i <= n,
            n == v@.len(),
            body == v@.subrange(start as int, n as int),
            body == (if v@.len() > 0 && (v@[0] == '-' || v@[0] == '+') {
                v@.drop_first()
            } else {
                v@
            }),
            neg == (v@.len() > 0 && v@[0] == '-'),
            all_digits(v@.subrange(start as int, i as int)),
            acc == digits_val(v@.subrange(start as int, i as int)),
            0 <= acc <= 0x8000_0000_0000_0000i128,
        decreases n - i,
    {
        let c = v[i];
        let u = c as u32;
        if u < 48 || u > 57 {
            proof {
                assert(body[i - start] == v@[i as int]);
                assert(!is_digit(body[i - start]));
                assert(!all_digits(body));
            }
            return None;
        }
        let d = (u - 48) as i128;
        acc = acc * 10 + d;
        proof {
            assert(v@.subrange(start as int, i + 1) =~= v@.subrange(start as int, i as int).push(
                v@[i as int],
            ));
            assert(v@.subrange(start as int, i + 1).drop_last() =~= v@.subrange(
                start as int,
                i as int,
            ));
        }
        if acc > 0x8000_0000_0000_0000i128 {
            proof {
                // Whatever follows, the digits read so far already put the
                // value out of range, so the whole text parses to nothing.
                if all_digits(body) {
                    assert(body.subrange(0, i + 1 - start) =~= v@.subrange(start as int, i + 1));
                    lemma_digits_val_mono(body, i + 1 - start);
                    assert(digits_val(v@.subrange(start as int, i + 1)) == acc);
                    assert(digits_val(body) >= acc);
                }
            }
            return None;
        }
        i = i + 1;
    }
    proof {
        assert(v@.subrange(start as int, n as int) =~= body);
    }
    if neg {
        let val = -acc;
        if val >= -0x8000_0000_0000_0000i128 {
            Some(val as i64)
        } else {
            None
        }
    } else {
        if acc <= 0x7fff_ffff_ffff_ffffi128 {
            Some(acc as i64)
        } else {
            None
        }
    }
}

/// The character of a decimal digit value.
pub open spec fn digit_char(d: int) -> char {
    ((48 + d) as u8) as char
}

/// The decimal rendering of a non-negative integer.
pub open spec fn nat_text(n: int) -> Seq<char>
    recommends
        n >= 0,
    decreases n,
{
    if n <= 9 {
        seq![digit_char(if n < 0 { 0 } else { n })]
    } else {
        nat_text(n / 10) + seq![digit_char(n % 10)]
    }
}

/// The decimal rendering of an integer: a minus sign for negative ones.
pub open spec fn int_text(i: int) -> Seq<char> {
    if i < 0 {
        seq!['-'] + nat_text(-i)
    } else {
        nat_text(i)
    }
}

/// Appends the decimal rendering of a non-negative number.
pub fn push_nat_text(n: u64, out: &mut Vec<char>)
    ensures
        final(out)@ == old(out)@ + nat_text(n as int),
    decreases n,
{
    if n <= 9 {
        out.push((48 + n as u8) as char);
        proof {
            assert(out@ =~= old(out)@ + nat_text(n as int));
        }
    } else {
        push_nat_text(n / 10, out);
        out.push((48 + (n % 10) as u8) as char);
        proof {
            assert(out@ =~= old(out)@ + nat_text(n as int));
        }
    }
}

/// The decimal rendering of a 64-bit integer, as characters.
pub fn int_to_text(i: i64) -> (r: Vec<char>)
    ensures
        r@ == int_text(i as int),
{
    let mut out: Vec<char> = Vec::new();
    if i < 0 {
        out.push('-');
        let m = (-(i as i128)) as u64;
        push_nat_text(m, &mut out);
        proof {
            assert(out@ =~= int_text(i as int));
        }
    } else {
        push_nat_text(i as u64, &mut out);
        proof {
            assert(out@ =~= int_text(i as int));
        }
    }
    out
}

/// Witness form of lexicographic order: the two sequences agree before
/// position `k`, where either the first ends or its character is the
/// smaller one.
pub open spec fn lex_lt_at(a: Seq<char>, b: Seq<char>, k: int) -> bool {
    &&& 0 <= k <= a.len()
    &&& k <= b.len()
    &&& a.subrange(0, k) == b.subrange(0, k)
    &&& if k == a.len() {
        k < b.len()
    } else {
        k < b.len() && (a[k] as u32) < (b[k] as u32)
    }
}

/// Lexicographic order on character sequences, by character code; a
/// proper prefix precedes its extensions.
pub open spec fn lex_lt(a: Seq<char>, b: Seq<char>) -> bool {
    exists|k: int| lex_lt_at(a, b, k)
}

/// Whether one sequence precedes another, lexicographically.
pub fn chars_lt(a: &Vec<char>, b: &Vec<char>) -> (r: bool)
    ensures
        r == lex_lt(a@, b@),
{
    let mut i: usize = 0;
    while i < a.len() && i < b.len()
        invariant
            i <= a@.len(),
            i <= b@.len(),
            a@.subrange(0, i as int) =~= b@.subrange(0, i as int),
        decreases a@.len() - i,
    {
        let ca = a[i] as u32;
        let cb = b[i] as u32;
        if ca < cb {
            proof {
                assert(lex_lt_at(a@, b@, i as int));
            }
            return true;
        }
        if cb < ca {
            proof {
                assert forall|k: int| !lex_lt_at(a@, b@, k) by {
                    if 0 <= k <= a@.len() && k <= b@.len() {
                        if k < i {
                            if a@.subrange(0, k) == b@.subrange(0, k) {
                                assert(a@.subrange(0, i as int)[k] == b@.subrange(0, i as int)[k]);
                            }
                        } else if k == i {
                            assert(!((a@[k] as u32) < (b@[k] as u32)));
                        } else {
                            if a@.subrange(0, k) == b@.subrange(0, k) {
                                assert(a@.subrange(0, k)[i as int] == b@.subrange(0, k)[i as int]);
                            }
                        }
                    }
                }
            }
            return false;
        }
        proof {
            assert(a@[i as int] == b@[i as int]) by {
                vstd::utf8::char_u32_cast(a@[i as int], ca);
                vstd::utf8::char_u32_cast(b@[i as int], ca);
            }
            assert(a@.subrange(0, i + 1) =~= b@.subrange(0, i + 1)) by {
                assert forall|k: int| 0 <= k < i + 1 implies #[trigger] a@.subrange(0, i + 1)[k]
                    == b@.subrange(0, i + 1)[k] by {
                    if k < i {
                        assert(a@.subrange(0, i as int)[k] == b@.subrange(0, i as int)[k]);
                    }
                }
            }
        }
        i = i + 1;
    }
    if i == a.len() && i < b.len() {
        proof {
            assert(lex_lt_at(a@, b@, i as int));
        }
        true
    } else {
        proof {
            assert forall|k: int| !lex_lt_at(a@, b@, k) by {
                if 0 <= k <= a@.len() && k <= b@.len() {
                    if k < i {
                        if a@.subrange(0, k) == b@.subrange(0, k) {
                            assert(a@.subrange(0, i as int)[k] == b@.subrange(0, i as int)[k]);
                        }
                    }
                }
            }
        }
        false
    }
}

/// Witness form of substring occurrence at a position.
pub open spec fn contains_at(s: Seq<char>, pat: Seq<char>, k: int) -> bool {
    0 <= k && k + pat.len() <= s.len() && s.subrange(k, k + pat.len()) == pat
}

/// Whether a sequence holds another as a contiguous run.
pub open spec fn contains_sub(s: Seq<char>, pat: Seq<char>) -> bool {
    exists|k: int| contains_at(s, pat, k)
}

/// Case-sensitive substring search.
pub fn chars_contains(s: &Vec<char>, pat: &Vec<char>) -> (r: bool)
    ensures
        r == contains_sub(s@, pat@),
{
    let n = s.len();
    let m = pat.len();
    if m > n {
        proof {
            assert forall|k: int| !contains_at(s@, pat@, k) by {}
        }
        return false;
    }
    if m == 0 {
        proof {
            assert(s@.subrange(0, 0) =~= pat@);
            assert(contains_at(s@, pat@, 0));
        }
        return true;
    }
    let mut k: usize = 0;
    while k <= n - m
        invariant
            m <= n,
            n == s@.len(),
            m == pat@.len(),
            1 <= m,
            k <= n - m + 1,
            forall|k2: int| 0 <= k2 < k ==> !contains_at(s@, pat@, k2),
        decreases n - m + 1 - k,
    {
        let mut j: usize = 0;
        let mut hit = true;
        while j < m
            invariant
                m <= n,
                n == s@.len(),
                m == pat@.len(),
                k <= n - m,
                j <= m,
                hit ==> forall|t: int| 0 <= t < j ==> s@[k + t] == #[trigger] pat@[t],
                !hit ==> !contains_at(s@, pat@, k as int),
            decreases m - j,
        {
            if s[k + j] != pat[j] {
                proof {
                    if contains_at(s@, pat@, k as int) {
                        assert(s@.subrange(k as int, k + m)[j as int] == pat@[j as int]);
                    }
                }
                hit = false;
                j = m;
            } else {
                j = j + 1;
            }
        }
        if hit {
            proof {
                assert(s@.subrange(k as int, k + m) =~= pat@);
                assert(contains_at(s@, pat@, k as int));
            }
            return true;
        }
        k = k + 1;
    }
    proof {
        assert forall|k2: int| !contains_at(s@, pat@, k2) by {
            if 0 <= k2 && k2 + pat@.len() <= s@.len() {
                assert(k2 < k);
            }
        }
    }
    false
}

/// A character folded to lower case, for ASCII letters alone.
pub open spec fn ascii_lower_char(c: char) -> char {
    if 65 <= c as u32 <= 90 {
        (((c as u32) + 32) as u8) as char
    } else {
        c
    }
}

/// A sequence folded to lower case, ASCII letters alone.
pub open spec fn ascii_lower(s: Seq<char>) -> Seq<char> {
    s.map_values(|c: char| ascii_lower_char(c))
}

/// The boolean a piece of text stands for: exactly `true` or `false`,
/// in any ASCII case.
pub open spec fn parsed_bool(s: Seq<char>) -> Option<bool> {
    if ascii_lower(s) == "true"@ {
        Some(true)
    } else if ascii_lower(s) == "false"@ {
        Some(false)
    } else {
        None
    }
}

/// One character, tested against its expected lower-case form.
fn char_matches(c: char, lower: char) -> (r: bool)
    requires
        97 <= lower as u32 <= 122,
    ensures
        r == (ascii_lower_char(c) == lower),
{
    let u = c as u32;
    let l = lower as u32;
    if u == l {
        true
    } else if 65 <= u && u <= 90 && u + 32 == l {
        proof {
            assert(ascii_lower_char(c) as u32 == l);
            assert(ascii_lower_char(c) == lower) by {
                vstd::utf8::char_u32_cast(ascii_lower_char(c), l);
                vstd::utf8::char_u32_cast(lower, l);
            }
        }
        true
    } else {
        proof {
            if ascii_lower_char(c) == lower {
                assert(ascii_lower_char(c) as u32 == l);
            }
        }
        false
    }
}

/// Parses a boolean from characters, exactly as `parsed_bool` describes.
pub fn parse_bool(v: &Vec<char>) -> (r: Option<bool>)
    ensures
        r == parsed_bool(v@),
{
    proof {
        reveal_strlit("true");
        reveal_strlit("false");
    }
    if v.len() == 4 && char_matches(v[0], 't') && char_matches(v[1], 'r') && char_matches(
        v[2],
        'u',
    ) && char_matches(v[3], 'e') {
        proof {
            assert(ascii_lower(v@) =~= "true"@);
        }
        Some(true)
    } else if v.len() == 5 && char_matches(v[0], 'f') && char_matches(v[1], 'a') && char_matches(
        v[2],
        'l',
    ) && char_matches(v[3], 's') && char_matches(v[4], 'e') {
        proof {
            assert(ascii_lower(v@) =~= "false"@);
            assert(ascii_lower(v@) != "true"@);
        }
        Some(false)
    } else {
        proof {
            reveal_strlit("true");
            reveal_strlit("false");
            assert(ascii_lower(v@).len() == v@.len());
            assert(("true"@).len() == 4);
            assert(("false"@).len() == 5);
            if ascii_lower(v@) == "true"@ {
                assert(v@.len() == 4);
                assert(ascii_lower(v@)[0] == 't' && ascii_lower(v@)[1] == 'r' && ascii_lower(v@)[2]
                    == 'u' && ascii_lower(v@)[3] == 'e');
            }
            if ascii_lower(v@) == "false"@ {
                assert(v@.len() == 5);
                assert(ascii_lower(v@)[0] == 'f' && ascii_lower(v@)[1] == 'a' && ascii_lower(v@)[2]
                    == 'l' && ascii_lower(v@)[3] == 's' && ascii_lower(v@)[4] == 'e');
            }
        }
        None
    }
}

/// An ordered pair's first characters are themselves ordered.
pub proof fn lemma_lex_head(a: Seq<char>, b: Seq<char>)
    requires
        lex_lt(a, b),
    ensures
        b.len() > 0,
        a.len() > 0 ==> (a[0] as u32) <= (b[0] as u32),
{
    let k = choose|k: int| lex_lt_at(a, b, k);
    if a.len() > 0 {
        if k == 0 {
            assert((a[0] as u32) < (b[0] as u32));
        } else {
            assert(a.subrange(0, k)[0] == b.subrange(0, k)[0]);
            assert(a[0] == b[0]);
        }
    }
}

/// Dropping equal heads preserves the order, in both directions.
pub proof fn lemma_lex_shift(a: Seq<char>, b: Seq<char>)
    requires
        a.len() > 0,
        b.len() > 0,
        a[0] == b[0],
    ensures
        lex_lt(a, b) <==> lex_lt(a.drop_first(), b.drop_first()),
{
    let ad = a.drop_first();
    let bd = b.drop_first();
    if lex_lt(a, b) {
        let k = choose|k: int| lex_lt_at(a, b, k);
        if k == 0 {
            assert(!((a[0] as u32) < (b[0] as u32)));
            assert(false);
        } else {
            assert(ad.subrange(0, k - 1) =~= bd.subrange(0, k - 1)) by {
                assert forall|t: int| 0 <= t < k - 1 implies #[trigger] ad.subrange(0, k - 1)[t]
                    == bd.subrange(0, k - 1)[t] by {
                    assert(a.subrange(0, k)[t + 1] == b.subrange(0, k)[t + 1]);
                }
            }
            assert(lex_lt_at(ad, bd, k - 1));
        }
    }
    if lex_lt(ad, bd) {
        let k = choose|k: int| lex_lt_at(ad, bd, k);
        assert(a.subrange(0, k + 1) =~= b.subrange(0, k + 1)) by {
            assert forall|t: int| 0 <= t < k + 1 implies #[trigger] a.subrange(0, k + 1)[t]
                == b.subrange(0, k + 1)[t] by {
                if t > 0 {
                    assert(ad.subrange(0, k)[t - 1] == bd.subrange(0, k)[t - 1]);
                }
            }
        }
        assert(lex_lt_at(a, b, k + 1));
    }
}

/// The order is total: incomparable sequences are equal.
pub proof fn lemma_lex_total(a: Seq<char>, b: Seq<char>)
    requires
        !lex_lt(a, b),
        !lex_lt(b, a),
    ensures
        a == b,
    decreases a.len(),
{
    if a.len() == 0 {
        if b.len() > 0 {
            assert(a.subrange(0, 0) =~= b.subrange(0, 0));
            assert(lex_lt_at(a, b, 0));
            assert(false);
        } else {
            assert(a =~= b);
        }
    } else if b.len() == 0 {
        assert(b.subrange(0, 0) =~= a.subrange(0, 0));
        assert(lex_lt_at(b, a, 0));
        assert(false);
    } else {
        if a[0] != b[0] {
            assert((a[0] as u32) != (b[0] as u32)) by {
                if (a[0] as u32) == (b[0] as u32) {
                    vstd::utf8::char_u32_cast(a[0], a[0] as u32);
                    vstd::utf8::char_u32_cast(b[0], a[0] as u32);
                }
            }
            assert(a.subrange(0, 0) =~= b.subrange(0, 0));
            if (a[0] as u32) < (b[0] as u32) {
                assert(lex_lt_at(a, b, 0));
            } else {
                assert(b.subrange(0, 0) =~= a.subrange(0, 0));
                assert(lex_lt_at(b, a, 0));
            }
            assert(false);
        } else {
            lemma_lex_shift(a, b);
            lemma_lex_shift(b, a);
            lemma_lex_total(a.drop_first(), b.drop_first());
            assert(a =~= b) by {
                assert forall|t: int| 0 <= t < a.len() implies a[t] == b[t] by {
                    if t > 0 {
                        assert(a.drop_first()[t - 1] == b.drop_first()[t - 1]);
                    }
                }
            }
        }
    }
}

/// The order is asymmetric.
pub proof fn lemma_lex_asym(a: Seq<char>, b: Seq<char>)
    requires
        lex_lt(a, b),
    ensures
        !lex_lt(b, a),
        a != b,
    decreases a.len(),
{
    lemma_lex_head(a, b);
    if a.len() == 0 {
        assert forall|k: int| !lex_lt_at(b, a, k) by {}
        assert(a.len() != b.len());
    } else {
        if lex_lt(b, a) {
            lemma_lex_head(b, a);
            assert((a[0] as u32) == (b[0] as u32));
            vstd::utf8::char_u32_cast(a[0], a[0] as u32);
            vstd::utf8::char_u32_cast(b[0], a[0] as u32);
            lemma_lex_shift(a, b);
            lemma_lex_shift(b, a);
            lemma_lex_asym(a.drop_first(), b.drop_first());
            assert(false);
        }
        if a == b {
            let k = choose|k: int| lex_lt_at(a, b, k);
            if k < a.len() {
                assert((a[k] as u32) < (a[k] as u32));
            }
        }
    }
}

/// The order is transitive.
pub proof fn lemma_lex_trans(a: Seq<char>, b: Seq<char>, c: Seq<char>)
    requires
        lex_lt(a, b),
        lex_lt(b, c),
    ensures
        lex_lt(a, c),
    decreases a.len(),
{
    lemma_lex_head(a, b);
    lemma_lex_head(b, c);
    if a.len() == 0 {
        assert(a.subrange(0, 0) =~= c.subrange(0, 0));
        assert(lex_lt_at(a, c, 0));
    } else {
        assert(b.len() > 0);
        if (a[0] as u32) < (c[0] as u32) {
            assert(a.subrange(0, 0) =~= c.subrange(0, 0));
            assert(lex_lt_at(a, c, 0));
        } else {
            assert((a[0] as u32) == (b[0] as u32));
            assert((b[0] as u32) == (c[0] as u32));
            vstd::utf8::char_u32_cast(a[0], a[0] as u32);
            vstd::utf8::char_u32_cast(b[0], a[0] as u32);
            vstd::utf8::char_u32_cast(c[0], a[0] as u32);
            lemma_lex_shift(a, b);
            lemma_lex_shift(b, c);
            lemma_lex_trans(a.drop_first(), b.drop_first(), c.drop_first());
            lemma_lex_shift(a, c);
        }
    }
}

} // verus!
