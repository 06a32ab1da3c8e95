//! Text helpers over the character and byte views of strings: equality,
//! substring and prefix tests, byte-wise ordering, decimal formatting and
//! parsing, and splitting on a separator.
use vstd::prelude::*;
use vstd::utf8::encode_utf8;
use vstd::string::StrSliceExecFns;
use vstd::string::StringExecFns;

verus! {

/// `needle` occurs as a contiguous run somewhere in `hay`.
pub open spec fn has_infix(hay: Seq<char>, needle: Seq<char>) -> bool {
    exists|i: int|
        0 <= i && i + needle.len() <= hay.len() && #[trigger] hay.subrange(i, i + needle.len())
            == needle
}

/// `s` begins with `p`.
pub open spec fn has_prefix(s: Seq<char>, p: Seq<char>) -> bool {
    p.len() <= s.len() && s.subrange(0, p.len() as int) == p
}

/// The UTF-8 bytes of a text, which is what `String`'s ordering compares.
pub open spec fn text_bytes(s: Seq<char>) -> Seq<u8> {
    encode_utf8(s)
}

/// Strict lexicographic order on byte strings.
pub open spec fn bytes_lt(a: Seq<u8>, b: Seq<u8>) -> bool
    decreases a.len(),
{
    if a.len() == 0 {
        b.len() > 0
    } else if b.len() == 0 {
        false
    } else if a[0] != b[0] {
        a[0] < b[0]
    } else {
        bytes_lt(a.drop_first(), b.drop_first())
    }
}

/// No byte string is below itself.
pub proof fn lemma_bytes_lt_irreflexive(a: Seq<u8>)
    ensures
        !bytes_lt(a, a),
    decreases a.len(),
{
    if a.len() > 0 {
        lemma_bytes_lt_irreflexive(a.drop_first());
    }
}

/// The order is asymmetric.
pub proof fn lemma_bytes_lt_asymmetric(a: Seq<u8>, b: Seq<u8>)
    ensures
        bytes_lt(a, b) ==> !bytes_lt(b, a),
    decreases a.len(),
{
    if a.len() > 0 && b.len() > 0 && a[0] == b[0] {
        lemma_bytes_lt_asymmetric(a.drop_first(), b.drop_first());
    }
}

/// The order is transitive.
pub proof fn lemma_bytes_lt_transitive(a: Seq<u8>, b: Seq<u8>, c: Seq<u8>)
    requires
        bytes_lt(a, b),
        bytes_lt(b, c),
    ensures
        bytes_lt(a, c),
    decreases a.len(),
{
    if a.len() > 0 && b.len() > 0 && c.len() > 0 && a[0] == b[0] && b[0] == c[0] {
        lemma_bytes_lt_transitive(a.drop_first(), b.drop_first(), c.drop_first());
    }
}

/// Two different byte strings are ordered one way or the other.
pub proof fn lemma_bytes_lt_total(a: Seq<u8>, b: Seq<u8>)
    ensures
        a != b ==> bytes_lt(a, b) || bytes_lt(b, a),
    decreases a.len(),
{
    if a.len() > 0 && b.len() > 0 && a[0] == b[0] {
        lemma_bytes_lt_total(a.drop_first(), b.drop_first());
        if a.drop_first() == b.drop_first() {
            assert(a =~= seq![a[0]] + a.drop_first());
            assert(b =~= seq![b[0]] + b.drop_first());
        }
    } else if a.len() == 0 && b.len() == 0 {
        assert(a =~= b);
    }
}

/// The characters of a string slice, in order.
pub fn chars_of(s: &str) -> (v: Vec<char>)
    ensures
        v@ == s@,
{
    let mut v: Vec<char> = Vec::new();
    for c in it: s.chars()
        invariant
            v@ == it.seq().take(it.index() as int),
    {
        v.push(c);
    }
    v
}

/// Whether `h[start .. start + n.len()]` equals `n`.
fn chars_match_at(h: &Vec<char>, start: usize, n: &Vec<char>) -> (r: bool)
    requires
        start + n.len() <= h.len(),
    ensures
        r == (h@.subrange(start as int, start + n.len()) == n@),
{
    let mut i: usize = 0;
    while i < n.len()
        invariant
            start + n.len() <= h.len(),
            i <= n.len(),
            forall|j: int| 0 <= j < i ==> h@[start + j] == n@[j],
        decreases n.len() - i,
    {
        if h[start + i] != n[i] {
            assert(h@.subrange(start as int, start + n.len())[i as int] != n@[i as int]);
            return false;
        }
        i = i + 1;
    }
    assert(h@.subrange(start as int, start + n.len()) =~= n@);
    true
}

/// Whether two texts are equal.
pub fn text_eq(a: &str, b: &str) -> (r: bool)
    ensures
        r == (a@ == b@),
{
    let ac = chars_of(a);
    let bc = chars_of(b);
    if ac.len() != bc.len() {
        return false;
    }
    let r = chars_match_at(&ac, 0, &bc);
    assert(ac@.subrange(0, bc@.len() as int) =~= ac@);
    r
}

/// Whether `hay` contains `needle` as a contiguous run.
pub fn text_contains(hay: &str, needle: &str) -> (r: bool)
    ensures
        r == has_infix(hay@, needle@),
{
    let h = chars_of(hay);
    let n = chars_of(needle);
    if n.len() > h.len() {
        return false;
    }
    let last = h.len() - n.len();
    let mut i: usize = 0;
    while i < last
        invariant
            last == h.len() - n.len(),
            n.len() <= h.len(),
            i <= last,
            h@ == hay@,
            n@ == needle@,
            forall|j: int| 0 <= j < i ==> #[trigger] h@.subrange(j, j + n@.len()) != n@,
        decreases last + 1 - i,
    {
        if chars_match_at(&h, i, &n) {
            return true;
        }
        i = i + 1;
    }
    if chars_match_at(&h, last, &n) {
        return true;
    }
    assert forall|j: int|
        0 <= j && j + needle@.len() <= hay@.len() implies #[trigger] hay@.subrange(
        j,
        j + needle@.len(),
    ) != needle@ by {
        if j < i {
        } else {
            assert(j == last);
        }
    }
    false
}

/// Whether `s` begins with `p`.
pub fn text_starts_with(s: &str, p: &str) -> (r: bool)
    ensures
        r == has_prefix(s@, p@),
{
    let sc = chars_of(s);
    let pc = chars_of(p);
    if pc.len() > sc.len() {
        return false;
    }
    chars_match_at(&sc, 0, &pc)
}

/// Whether `a` sorts strictly before `b` in byte order.
pub fn text_lt(a: &str, b: &str) -> (r: bool)
    ensures
        r == bytes_lt(text_bytes(a@), text_bytes(b@)),
{
    let ab = a.as_bytes();
    let bb = b.as_bytes();
    let mut i: usize = 0;
    assert(ab@.skip(0) =~= ab@);
    assert(bb@.skip(0) =~= bb@);
    while i < ab.len() && i < bb.len()
        invariant
            ab@ == text_bytes(a@),
            bb@ == text_bytes(b@),
            i <= ab@.len(),
            i <= bb@.len(),
            bytes_lt(ab@, bb@) == bytes_lt(ab@.skip(i as int), bb@.skip(i as int)),
        decreases ab.len() - i,
    {
        if ab[i] != bb[i] {
            return ab[i] < bb[i];
        }
        assert(ab@.skip(i as int).drop_first() =~= ab@.skip(i + 1));
        assert(bb@.skip(i as int).drop_first() =~= bb@.skip(i + 1));
        i = i + 1;
    }
    i < bb.len()
}

/// The decimal digit character for `d < 10`.
pub open spec fn digit_char(d: nat) -> char {
    if d == 0 {
        '0'
    } else if d == 1 {
        '1'
    } else if d == 2 {
        '2'
    } else if d == 3 {
        '3'
    } else if d == 4 {
        '4'
    } else if d == 5 {
        '5'
    } else if d == 6 {
        '6'
    } else if d == 7 {
        '7'
    } else if d == 8 {
        '8'
    } else {
        '9'
    }
}

/// The numeric value of a decimal digit character.
pub open spec fn digit_value(c: char) -> nat {
    (c as u32 - 48) as nat
}

/// Whether `c` is one of `'0'..='9'`.
pub open spec fn is_digit(c: char) -> bool {
    48 <= c as u32 && c as u32 <= 57
}

/// The decimal writing of `n`, without leading zeros.
pub open spec fn decimal(n: nat) -> Seq<char>
    decreases n,
{
    if n < 10 {
        seq![digit_char(n)]
    } else {
        decimal(n / 10).push(digit_char(n % 10))
    }
}

/// Every character of `s` is a decimal digit.
pub open spec fn all_digits(s: Seq<char>) -> bool {
    forall|i: int| 0 <= i < s.len() ==> is_digit(#[trigger] s[i])
}

/// The number that a run of decimal digits writes.
pub open spec fn digits_value(s: Seq<char>) -> nat
    decreases s.len(),
{
    if s.len() == 0 {
        0
    } else {
        digits_value(s.drop_last()) * 10 + digit_value(s.last())
    }
}

/// What `str::parse::<u16>` accepts: an optional `+`, then one or more
/// decimal digits whose value fits in a `u16`.
pub open spec fn parse_u16_spec(s: Seq<char>) -> Option<u16> {
    let digits = if s.len() > 0 && s[0] == '+' {
        s.drop_first()
    } else {
        s
    };
    if digits.len() > 0 && all_digits(digits) && digits_value(digits) <= u16::MAX {
        Some(digits_value(digits) as u16)
    } else {
        None
    }
}

/// Each digit character is a digit, and reads back as its value.
proof fn lemma_digit_char(d: nat)
    requires
        d < 10,
    ensures
        is_digit(digit_char(d)),
        digit_value(digit_char(d)) == d,
        digit_char(d) != '+',
{
}

/// Reading back a decimal writing gives the number that was written.
pub proof fn lemma_decimal_digits(n: nat)
    ensures
        decimal(n).len() > 0,
        all_digits(decimal(n)),
        digits_value(decimal(n)) == n,
        decimal(n)[0] != '+',
    decreases n,
{
    lemma_digit_char(n % 10);
    if n < 10 {
        assert(decimal(n).drop_last() =~= Seq::<char>::empty());
        assert(decimal(n).last() == digit_char(n));
        assert(digits_value(Seq::<char>::empty()) == 0);
        assert(digits_value(decimal(n)) == digits_value(decimal(n).drop_last()) * 10 + digit_value(decimal(n).last()));
    } else {
        lemma_decimal_digits(n / 10);
        let d = decimal(n / 10);
        assert(decimal(n).drop_last() =~= d);
        assert(decimal(n).last() == digit_char(n % 10));
        assert(digits_value(decimal(n)) == digits_value(d) * 10 + digit_value(digit_char(n % 10)));
        assert((n / 10) * 10 + n % 10 == n);
        assert forall|i: int| 0 <= i < decimal(n).len() implies is_digit(#[trigger] decimal(n)[i]) by {
            if i < d.len() {
                assert(decimal(n)[i] == d[i]);
            }
        }
    }
}

/// Parsing the decimal writing of a `u16` gives the number back.
pub proof fn lemma_parse_decimal(n: u16)
    ensures
        parse_u16_spec(decimal(n as nat)) == Some(n),
{
    lemma_decimal_digits(n as nat);
}

/// A decimal writing holds no character other than digits.
pub proof fn lemma_decimal_lacks(n: nat, c: char)
    requires
        !is_digit(c),
    ensures
        !decimal(n).contains(c),
{
    lemma_decimal_digits(n);
    if decimal(n).contains(c) {
        let i = choose|i: int| 0 <= i < decimal(n).len() && decimal(n)[i] == c;
        assert(is_digit(decimal(n)[i]));
    }
}

/// A value parsed from decimal digits, taken one more digit at a time, never
/// decreases.
proof fn lemma_digits_value_prefix(s: Seq<char>, i: int, j: int)
    requires
        0 <= i <= j <= s.len(),
        all_digits(s),
    ensures
        digits_value(s.take(i)) <= digits_value(s.take(j)),
    decreases j - i,
{
    if i < j {
        lemma_digits_value_prefix(s, i, j - 1);
        assert(s.take(j).drop_last() =~= s.take(j - 1));
    }
}

/// The decimal writing of `n`, as `u16`'s `Display` prints it.
pub fn decimal_text(n: u16) -> (s: String)
    ensures
        s@ == decimal(n as nat),
    decreases n,
{
    let d = n % 10;
    let digit = if d == 0 {
        "0"
    } else if d == 1 {
        "1"
    } else if d == 2 {
        "2"
    } else if d == 3 {
        "3"
    } else if d == 4 {
        "4"
    } else if d == 5 {
        "5"
    } else if d == 6 {
        "6"
    } else if d == 7 {
        "7"
    } else if d == 8 {
        "8"
    } else {
        "9"
    };
    proof {
        reveal_strlit("0");
        reveal_strlit("1");
        reveal_strlit("2");
        reveal_strlit("3");
        reveal_strlit("4");
        reveal_strlit("5");
        reveal_strlit("6");
        reveal_strlit("7");
        reveal_strlit("8");
        reveal_strlit("9");
    }
    assert(digit@ =~= seq![digit_char(d as nat)]);
    if n < 10 {
        String::from_str(digit)
    } else {
        let head = decimal_text(n / 10);
        head.concat(digit)
    }
}

/// `str::parse::<u16>`: `Some` exactly when the text is an optional `+`
/// followed by one or more decimal digits whose value fits in a `u16`.
pub fn parse_u16(s: &str) -> (r: Option<u16>)
    ensures
        r == parse_u16_spec(s@),
{
    let all = chars_of(s);
    let start: usize = if all.len() > 0 && all[0] == '+' {
        1
    } else {
        0
    };
    let ghost digits = all@.skip(start as int);
    assert(digits =~= (if s@.len() > 0 && s@[0] == '+' {
        s@.drop_first()
    } else {
        s@
    }));
    if start >= all.len() {
        assert(digits.len() == 0);
        return None;
    }
    let mut acc: u32 = 0;
    let mut i: usize = start;
    while i < all.len()
        invariant
            start <= i <= all.len(),
            all@ == s@,
            digits == all@.skip(start as int),
            digits == (if s@.len() > 0 && s@[0] == '+' {
                s@.drop_first()
            } else {
                s@
            }),
            digits.len() > 0,
            all_digits(digits.take(i - start)),
            acc as nat == digits_value(digits.take(i - start)),
            acc <= u16::MAX,
        decreases all.len() - i,
    {
        let c = all[i];
        let code = c as u32;
        if !(48 <= code && code <= 57) {
            assert(digits[i - start] == c);
            assert(!is_digit(c));
            assert(!all_digits(digits));
            return None;
        }
        let v = code - 48;
        assert(v as nat == digit_value(c));
        assert(digits.take(i - start + 1).drop_last() =~= digits.take(i - start));
        assert(digits.take(i - start + 1).last() == c);
        acc = acc * 10 + v;
        assert(acc as nat == digits_value(digits.take(i - start + 1)));
        assert forall|j: int| 0 <= j < i - start + 1 implies is_digit(
            #[trigger] digits.take(i - start + 1)[j],
        ) by {
            if j < i - start {
                assert(digits.take(i - start + 1)[j] == digits.take(i - start)[j]);
            }
        }
        if acc > 65535 {
            proof {
                if all_digits(digits) {
                    lemma_digits_value_prefix(digits, i - start + 1, digits.len() as int);
                    assert(digits.take(digits.len() as int) =~= digits);
                }
            }
            return None;
        }
        i = i + 1;
    }
    assert(digits.take(i - start) =~= digits);
    Some(acc as u16)
}

/// The fields of `s` between occurrences of `sep`, as `str::split` yields
/// them: `k` separators give `k + 1` fields, empty ones included.
pub open spec fn split_fields(s: Seq<char>, sep: char) -> Seq<Seq<char>>
    decreases s.len(),
{
    if s.len() == 0 {
        seq![Seq::empty()]
    } else {
        let before = split_fields(s.drop_last(), sep);
        if s.last() == sep {
            before.push(Seq::empty())
        } else {
            before.update(before.len() - 1, before.last().push(s.last()))
        }
    }
}

/// `split_fields` never yields an empty list.
pub proof fn lemma_split_fields_nonempty(s: Seq<char>, sep: char)
    ensures
        split_fields(s, sep).len() >= 1,
    decreases s.len(),
{
    if s.len() > 0 {
        lemma_split_fields_nonempty(s.drop_last(), sep);
    }
}

/// Splitting `a` followed by `sep` and `b` gives the fields of `a` followed by
/// those of `b`.
pub proof fn lemma_split_fields_join(a: Seq<char>, b: Seq<char>, sep: char)
    ensures
        split_fields(a + seq![sep] + b, sep) == split_fields(a, sep) + split_fields(b, sep),
    decreases b.len(),
{
    lemma_split_fields_nonempty(a, sep);
    lemma_split_fields_nonempty(b, sep);
    if b.len() == 0 {
        assert((a + seq![sep] + b).drop_last() =~= a);
        assert(split_fields(b, sep) =~= seq![Seq::<char>::empty()]);
        assert(split_fields(a, sep).push(Seq::empty()) =~= split_fields(a, sep) + split_fields(
            b,
            sep,
        ));
    } else {
        let whole = a + seq![sep] + b;
        assert(whole.drop_last() =~= a + seq![sep] + b.drop_last());
        lemma_split_fields_join(a, b.drop_last(), sep);
        lemma_split_fields_nonempty(b.drop_last(), sep);
        let fa = split_fields(a, sep);
        let fb = split_fields(b.drop_last(), sep);
        if b.last() == sep {
            assert((fa + fb).push(Seq::empty()) =~= fa + fb.push(Seq::empty()));
        } else {
            let before = fa + fb;
            assert(before.update(before.len() - 1, before.last().push(b.last())) =~= fa + fb.update(
                fb.len() - 1,
                fb.last().push(b.last()),
            ));
        }
    }
}

/// A text without `sep` is a single field.
pub proof fn lemma_split_fields_single(s: Seq<char>, sep: char)
    requires
        !s.contains(sep),
    ensures
        split_fields(s, sep) == seq![s],
    decreases s.len(),
{
    if s.len() == 0 {
        assert(s =~= Seq::<char>::empty());
    } else {
        assert(!s.drop_last().contains(sep)) by {
            if s.drop_last().contains(sep) {
                let j = choose|j: int| 0 <= j < s.drop_last().len() && s.drop_last()[j] == sep;
                assert(s[j] == sep);
            }
        }
        lemma_split_fields_single(s.drop_last(), sep);
        assert(s.last() != sep) by {
            assert(s[s.len() - 1] == s.last());
        }
        let before = split_fields(s.drop_last(), sep);
        assert(before == seq![s.drop_last()]);
        assert(before.len() - 1 == 0);
        assert(before.last() == s.drop_last());
        assert(s.drop_last().push(s.last()) =~= s);
        assert(before.update(0, s) =~= seq![s]);
    }
}

/// The fields of `s` between occurrences of `sep`, as `str::split` yields
/// them.
pub fn split_text(s: &str, sep: char) -> (r: Vec<String>)
    ensures
        r@.len() == split_fields(s@, sep).len(),
        forall|i: int| 0 <= i < r@.len() ==> #[trigger] r@[i]@ == split_fields(s@, sep)[i],
{
    let all = chars_of(s);
    let mut fields: Vec<String> = Vec::new();
    let mut start: usize = 0;
    let mut i: usize = 0;
    while i < all.len()
        invariant
            all@ == s@,
            start <= i <= all.len(),
            fields@.len() + 1 == split_fields(all@.take(i as int), sep).len(),
            forall|j: int|
                0 <= j < fields@.len() ==> #[trigger] fields@[j]@ == split_fields(
                    all@.take(i as int),
                    sep,
                )[j],
            split_fields(all@.take(i as int), sep).last() == all@.subrange(start as int, i as int),
        decreases all.len() - i,
    {
        let ghost prev = split_fields(all@.take(i as int), sep);
        assert(all@.take(i + 1).drop_last() =~= all@.take(i as int));
        assert(all@.take(i + 1).last() == all@[i as int]);
        if all[i] == sep {
            let field = s.substring_char(start, i);
            fields.push(field.to_owned());
            start = i + 1;
            assert(all@.subrange(start as int, i + 1) =~= Seq::<char>::empty());
        } else {
            assert(all@.subrange(start as int, i + 1) =~= all@.subrange(start as int, i as int).push(
                all@[i as int],
            ));
        }
        i = i + 1;
    }
    let last = s.substring_char(start, all.len());
    fields.push(last.to_owned());
    assert(all@.take(all@.len() as int) =~= s@);
    fields
}

} // verus!
