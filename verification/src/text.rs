//! Plain string helpers the rest of the crate builds on: trailing-whitespace
//! trimming, substring search, decimal rendering and parsing, and file-name
//! sanitizing.
use vstd::prelude::*;

verus! {

/// The whitespace characters `combine_prompts` trims from the end of a base
/// prompt.
pub open spec fn is_space_char(c: char) -> bool {
    c == ' ' || c == '\t' || c == '\n' || c == '\r'
}

/// `s` with every trailing whitespace character removed.
pub open spec fn trimmed_end(s: Seq<char>) -> Seq<char>
    decreases s.len(),
{
    if s.len() == 0 {
        s
    } else if is_space_char(s.last()) {
        trimmed_end(s.drop_last())
    } else {
        s
    }
}

/// Appends `c` to `s`.
/// Relies on std's `String::push`: appends the given char to the end.
#[verifier::external_body]
pub fn push_char(s: &mut String, c: char)
    ensures
        final(s)@ == old(s)@.push(c),
{
    s.push(c);
}

/// Length of the longest prefix of `s` that ends in a non-whitespace
/// character; the rest of `s` is trailing whitespace.
pub fn trim_end_len(s: &str) -> (n: usize)
    ensures
        n <= s@.len(),
        s@.subrange(0, n as int) == trimmed_end(s@),
{
    let mut n: usize = s.unicode_len();
    proof {
        assert(s@.subrange(0, n as int) =~= s@);
    }
    while n > 0 && is_space_exec(s.get_char(n - 1))
        invariant
            n <= s@.len(),
            trimmed_end(s@.subrange(0, n as int)) == trimmed_end(s@),
        decreases n,
    {
        proof {
            assert(s@.subrange(0, n as int).last() == s@[n - 1]);
            assert(s@.subrange(0, n as int).drop_last() =~= s@.subrange(0, n - 1));
        }
        n = n - 1;
    }
    proof {
        if n == 0 {
            assert(s@.subrange(0, 0) =~= Seq::<char>::empty());
        }
    }
    n
}

/// Executable form of `is_space_char`.
pub fn is_space_exec(c: char) -> (r: bool)
    ensures
        r == is_space_char(c),
{
    c == ' ' || c == '\t' || c == '\n' || c == '\r'
}

/// `needle` occurs contiguously somewhere in `hay`.
pub open spec fn contains_sub(hay: Seq<char>, needle: Seq<char>) -> bool {
    exists|i: int|
        0 <= i <= hay.len() - needle.len() && #[trigger] hay.subrange(i, i + needle.len())
            == needle
}

/// Whether the characters of `hay` starting at `i` spell `needle`.
fn matches_at(hay: &str, needle: &str, i: usize) -> (r: bool)
    requires
        i + needle@.len() <= hay@.len(),
        i + needle@.len() <= usize::MAX,
    ensures
        r == (hay@.subrange(i as int, i + needle@.len()) == needle@),
{
    let n: usize = needle.unicode_len();
    let mut j: usize = 0;
    while j < n
        invariant
            n == needle@.len(),
            i + n <= hay@.len(),
            i + n <= usize::MAX,
            j <= n,
            forall|k: int| 0 <= k < j ==> hay@[i + k] == needle@[k],
        decreases n - j,
    {
        if hay.get_char(i + j) != needle.get_char(j) {
            proof {
                assert(hay@.subrange(i as int, i + needle@.len())[j as int] == hay@[i + j]);
            }
            return false;
        }
        j = j + 1;
    }
    proof {
        assert(hay@.subrange(i as int, i + needle@.len()) =~= needle@);
    }
    true
}

/// Substring search: does `needle` occur in `hay`?
pub fn str_contains(hay: &str, needle: &str) -> (r: bool)
    ensures
        r == contains_sub(hay@, needle@),
{
    let nh: usize = hay.unicode_len();
    let nn: usize = needle.unicode_len();
    if nn > nh {
        return false;
    }
    if nn == 0 {
        proof {
            assert(contains_sub(hay@, needle@)) by {
                assert(hay@.subrange(0, 0 + needle@.len() as int) =~= needle@);
            }
        }
        return true;
    }
    let mut i: usize = 0;
    while i <= nh - nn
        invariant
            nh == hay@.len(),
            nn == needle@.len(),
            0 < nn <= nh,
            i <= nh - nn + 1,
            forall|k: int|
                0 <= k < i ==> #[trigger] hay@.subrange(k, k + needle@.len()) != needle@,
        decreases nh - nn + 1 - i,
    {
        if matches_at(hay, needle, i) {
            return true;
        }
        i = i + 1;
    }
    false
}

/// The character for one decimal digit.
pub open spec fn digit_char(d: int) -> char {
    if d == 0 {
        '0'
    } else if d == 1 {
        '1'
    } else if d == 2 {
        '2'
    } else if d == 3 {
        '3'
    } else if d == 4 {
        '4'
    } else if d == 5 {
        '5'
    } else if d == 6 {
        '6'
    } else if d == 7 {
        '7'
    } else if d == 8 {
        '8'
    } else {
        '9'
    }
}

/// Decimal rendering of `v`, most significant digit first, no leading zeros.
pub open spec fn dec_u64(v: nat) -> Seq<char>
    decreases v,
{
    if v < 10 {
        seq![digit_char(v as int)]
    } else {
        dec_u64(v / 10).push(digit_char((v % 10) as int))
    }
}

/// Appends the decimal rendering of `v` to `out`.
pub fn append_dec_u64(out: &mut String, v: u64)
    ensures
        final(out)@ == old(out)@ + dec_u64(v as nat),
    decreases v,
{
    if v >= 10 {
        append_dec_u64(out, v / 10);
    }
    let d = v % 10;
    match d {
        0 => out.append("0"),
        1 => out.append("1"),
        2 => out.append("2"),
        3 => out.append("3"),
        4 => out.append("4"),
        5 => out.append("5"),
        6 => out.append("6"),
        7 => out.append("7"),
        8 => out.append("8"),
        _ => out.append("9"),
    }
    proof {
        reveal_strlit("0");
        reveal_strlit("1");
        reveal_strlit("2");
        reveal_strlit("3");
        reveal_strlit("4");
        reveal_strlit("5");
        reveal_strlit("6");
        reveal_strlit("7");
        reveal_strlit("8");
        reveal_strlit("9");
        if v < 10 {
            assert(final(out)@ =~= old(out)@ + dec_u64(v as nat));
        } else {
            assert(final(out)@ =~= old(out)@ + dec_u64(v as nat));
        }
    }
}

/// Decimal rendering padded on the left with `'0'` to at least two digits,
/// the shape image file names use.
pub open spec fn dec2_u64(v: nat) -> Seq<char> {
    if v < 10 {
        seq!['0'] + dec_u64(v)
    } else {
        dec_u64(v)
    }
}

/// Appends the two-digit-padded decimal rendering of `v` to `out`.
pub fn append_dec2_u64(out: &mut String, v: u64)
    ensures
        final(out)@ == old(out)@ + dec2_u64(v as nat),
{
    if v < 10 {
        out.append("0");
        proof {
            reveal_strlit("0");
        }
    }
    append_dec_u64(out, v);
    proof {
        assert(final(out)@ =~= old(out)@ + dec2_u64(v as nat));
    }
}

/// Whether `c` is a decimal digit.
pub open spec fn is_digit(c: char) -> bool {
    '0' as u32 <= c as u32 <= '9' as u32
}

/// The numeric value of a digit character.
pub open spec fn digit_val(c: char) -> int {
    c as u32 - '0' as u32
}

/// Executable digit test.
pub fn is_digit_exec(c: char) -> (r: bool)
    ensures
        r == is_digit(c),
{
    let v = c as u32;
    ('0' as u32) <= v && v <= ('9' as u32)
}

/// Numeric value of a sequence of digit characters, most significant first.
pub open spec fn digits_value(s: Seq<char>) -> int
    decreases s.len(),
{
    if s.len() == 0 {
        0
    } else {
        digits_value(s.drop_last()) * 10 + digit_val(s.last())
    }
}

/// Powers of ten.
pub open spec fn pow10(n: nat) -> nat
    decreases n,
{
    if n == 0 {
        1
    } else {
        10 * pow10((n - 1) as nat)
    }
}

/// A digit character reads back as its digit.
pub proof fn lemma_digit_char_val(d: int)
    requires
        0 <= d < 10,
    ensures
        digit_val(digit_char(d)) == d,
        is_digit(digit_char(d)),
{
}

/// Every digit value is non-negative, so a value never shrinks as digits are
/// appended.
pub proof fn lemma_digits_value_nonneg(s: Seq<char>)
    requires
        forall|i: int| 0 <= i < s.len() ==> is_digit(#[trigger] s[i]),
    ensures
        digits_value(s) >= 0,
    decreases s.len(),
{
    if s.len() > 0 {
        lemma_digits_value_nonneg(s.drop_last());
    }
}

/// Appending digits never shrinks the value.
pub proof fn lemma_digits_value_prefix_le(s: Seq<char>, i: int)
    requires
        0 <= i <= s.len(),
        forall|k: int| 0 <= k < s.len() ==> is_digit(#[trigger] s[k]),
    ensures
        digits_value(s.subrange(0, i)) <= digits_value(s),
    decreases s.len() - i,
{
    if i == s.len() {
        assert(s.subrange(0, i) =~= s);
    } else {
        assert(s.subrange(0, i + 1).drop_last() =~= s.subrange(0, i));
        lemma_digits_value_nonneg(s.subrange(0, i));
        lemma_digits_value_prefix_le(s, i + 1);
    }
}

/// Every character of a decimal rendering is a digit.
pub proof fn lemma_dec_u64_digits(v: nat)
    ensures
        forall|k: int| 0 <= k < dec_u64(v).len() ==> is_digit(#[trigger] dec_u64(v)[k]),
        dec_u64(v).len() > 0,
    decreases v,
{
    if v < 10 {
    } else {
        lemma_dec_u64_digits(v / 10);
        assert forall|k: int| 0 <= k < dec_u64(v).len() implies is_digit(
            #[trigger] dec_u64(v)[k],
        ) by {
            if k < dec_u64(v / 10).len() {
                assert(dec_u64(v)[k] == dec_u64(v / 10)[k]);
            }
        }
    }
}

/// Reading back the digits of a decimal rendering yields the value.
pub proof fn lemma_dec_u64_value(v: nat)
    ensures
        digits_value(dec_u64(v)) == v,
    decreases v,
{
    if v < 10 {
        lemma_digit_char_val(v as int);
        let s = dec_u64(v);
        assert(s == seq![digit_char(v as int)]);
        assert(s.len() == 1 && s.last() == digit_char(v as int));
        assert(s.drop_last() =~= Seq::<char>::empty());
        assert(digits_value(Seq::<char>::empty()) == 0);
        assert(digits_value(s) == digits_value(s.drop_last()) * 10 + digit_val(s.last()));
    } else {
        lemma_digit_char_val((v % 10) as int);
        lemma_dec_u64_value(v / 10);
        let s = dec_u64(v);
        assert(s == dec_u64(v / 10).push(digit_char((v % 10) as int)));
        assert(s.len() > 0 && s.last() == digit_char((v % 10) as int));
        assert(s.drop_last() =~= dec_u64(v / 10));
        assert(digits_value(s) == digits_value(s.drop_last()) * 10 + digit_val(s.last()));
    }
}

/// A leading zero does not change the value of a digit string.
pub proof fn lemma_digits_value_leading_zero(s: Seq<char>)
    ensures
        digits_value(seq!['0'] + s) == digits_value(s),
    decreases s.len(),
{
    let z = seq!['0'] + s;
    assert(z.len() > 0);
    if s.len() == 0 {
        lemma_digit_char_val(0);
        assert(z =~= seq!['0']);
        assert(z.last() == '0');
        assert(z.drop_last() =~= Seq::<char>::empty());
        assert(digits_value(Seq::<char>::empty()) == 0);
        assert(digits_value(z) == digits_value(z.drop_last()) * 10 + digit_val(z.last()));
        assert(digit_val('0') == 0);
    } else {
        assert(z.drop_last() =~= seq!['0'] + s.drop_last());
        assert(z.last() == s.last());
        lemma_digits_value_leading_zero(s.drop_last());
        assert(digits_value(z) == digits_value(z.drop_last()) * 10 + digit_val(z.last()));
        assert(digits_value(s) == digits_value(s.drop_last()) * 10 + digit_val(s.last()));
    }
}

/// Splitting a digit string at the front: the leading digit carries a power
/// of ten for each remaining digit.
pub proof fn lemma_digits_value_front(s: Seq<char>)
    requires
        s.len() > 0,
    ensures
        digits_value(s) == digit_val(s[0]) * pow10((s.len() - 1) as nat) + digits_value(s.skip(1)),
    decreases s.len(),
{
    if s.len() == 1 {
        assert(s.drop_last() =~= Seq::<char>::empty());
        assert(s.skip(1) =~= Seq::<char>::empty());
        assert(s.last() == s[0]);
        assert(digits_value(s) == digits_value(s.drop_last()) * 10 + digit_val(s.last()));
        assert(digits_value(Seq::<char>::empty()) == 0);
        assert(pow10(0) == 1);
        assert(digit_val(s[0]) * 1 == digit_val(s[0]));
    } else {
        let head = s.drop_last();
        lemma_digits_value_front(head);
        assert(head[0] == s[0]);
        assert(s.skip(1).drop_last() =~= head.skip(1));
        assert(s.skip(1).len() > 0 && s.skip(1).last() == s.last());
        assert(digits_value(s) == digits_value(head) * 10 + digit_val(s.last()));
        assert(digits_value(s.skip(1)) == digits_value(head.skip(1)) * 10 + digit_val(s.last()));
        let p = pow10((head.len() - 1) as nat);
        let a = digit_val(s[0]);
        let b = digits_value(head.skip(1));
        assert(pow10((s.len() - 1) as nat) == 10 * p);
        assert(digits_value(head) == a * p + b);
        assert((a * p + b) * 10 == a * (10 * p) + b * 10) by (nonlinear_arith);
        assert(digits_value(s) == a * (10 * p) + b * 10 + digit_val(s.last()));
        assert(digits_value(s) == a * pow10((s.len() - 1) as nat) + digits_value(s.skip(1)));
    }
}

/// `name` made safe for use inside a file name: spaces become dashes.
pub open spec fn spec_safe_filename(name: Seq<char>) -> Seq<char> {
    name.map_values(|c: char| if c == ' ' { '-' } else { c })
}

/// Replaces every space in `name` with a dash, the only sanitizing applied
/// to template names before they enter file names.
pub fn get_safe_filename(name: &str) -> (r: String)
    ensures
        r@ == spec_safe_filename(name@),
{
    let n: usize = name.unicode_len();
    let mut out = String::new();
    let mut i: usize = 0;
    proof {
        assert(out@ =~= spec_safe_filename(name@.subrange(0, 0)));
    }
    while i < n
        invariant
            n == name@.len(),
            i <= n,
            out@ == spec_safe_filename(name@.subrange(0, i as int)),
        decreases n - i,
    {
        let c = name.get_char(i);
        if c == ' ' {
            push_char(&mut out, '-');
        } else {
            push_char(&mut out, c);
        }
        i = i + 1;
        proof {
            assert(out@ =~= spec_safe_filename(name@.subrange(0, i as int)));
        }
    }
    proof {
        assert(name@.subrange(0, n as int) =~= name@);
    }
    out
}

} // verus!
