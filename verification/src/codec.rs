//! The log file format: a compact JSON object holding the template name and
//! the parameter record of every image. The encoder produces one canonical
//! text for a log; the parser reads it back, and the round trip is proved:
//! a log written and re-read yields the same records. Resume and reroll rest
//! on this — the file is the durable source of truth for what a run intended.
use vstd::prelude::*;

use crate::params::{HiResView, ParamsView, PostView};
use crate::text::{
    dec_u64, digit_val, digits_value, is_digit, is_digit_exec, lemma_dec_u64_digits,
    lemma_dec_u64_value, lemma_digits_value_front, lemma_digits_value_nonneg, pow10, push_char,
    append_dec_u64,
};

verus! {

// ---------------------------------------------------------------- escaping
/// How one character stands inside a JSON string: quotes and backslashes are
/// escaped, everything else stands as itself.
pub open spec fn esc_char(c: char) -> Seq<char> {
    if c == '"' {
        seq!['\\', '"']
    } else if c == '\\' {
        seq!['\\', '\\']
    } else {
        seq![c]
    }
}

/// A whole text escaped character by character.
pub open spec fn esc_str(s: Seq<char>) -> Seq<char>
    decreases s.len(),
{
    if s.len() == 0 {
        Seq::empty()
    } else {
        esc_char(s[0]) + esc_str(s.skip(1))
    }
}

/// Escaping distributes over concatenation.
pub proof fn lemma_esc_str_concat(a: Seq<char>, b: Seq<char>)
    ensures
        esc_str(a + b) == esc_str(a) + esc_str(b),
    decreases a.len(),
{
    if a.len() == 0 {
        assert(a + b =~= b);
        assert(esc_str(a) + esc_str(b) =~= esc_str(b));
    } else {
        assert((a + b)[0] == a[0]);
        assert((a + b).skip(1) =~= a.skip(1) + b);
        lemma_esc_str_concat(a.skip(1), b);
        assert(esc_char(a[0]) + (esc_str(a.skip(1)) + esc_str(b)) =~= (esc_char(a[0]) + esc_str(
            a.skip(1),
        )) + esc_str(b));
        assert(esc_str(a + b) =~= esc_str(a) + esc_str(b));
    }
}

/// A JSON string: the escaped text between two quotes.
pub open spec fn enc_str(s: Seq<char>) -> Seq<char> {
    seq!['"'] + esc_str(s) + seq!['"']
}

// ---------------------------------------------------------------- numbers
/// An unsigned number: its decimal digits.
pub open spec fn enc_u64(v: u64) -> Seq<char> {
    dec_u64(v as nat)
}

/// A signed number: a minus sign when negative, then the decimal magnitude.
pub open spec fn enc_i64(v: i64) -> Seq<char> {
    if v < 0 {
        seq!['-'] + dec_u64((0 - v as int) as nat)
    } else {
        dec_u64(v as nat)
    }
}

// ---------------------------------------------------------------- parsing
// Spec parsers walk the text with a cursor and give back the value and the
// cursor after it, or nothing when the text ahead is not a canonical
// encoding. The executable parser mirrors them exactly.
/// Expect the exact text `lit` at `pos`.
pub open spec fn sp_lit(s: Seq<char>, pos: int, lit: Seq<char>) -> Option<int> {
    if 0 <= pos && pos + lit.len() <= s.len() && s.subrange(pos, pos + lit.len()) == lit {
        Some(pos + lit.len())
    } else {
        None
    }
}

/// Read a string body up to its closing quote, undoing the escapes.
pub open spec fn sp_str_body(s: Seq<char>, pos: int) -> Option<(Seq<char>, int)>
    decreases s.len() - pos,
    when 0 <= pos <= s.len()
{
    if pos >= s.len() {
        None
    } else if s[pos] == '"' {
        Some((Seq::empty(), pos + 1))
    } else if s[pos] == '\\' {
        if pos + 1 >= s.len() {
            None
        } else if s[pos + 1] == '"' || s[pos + 1] == '\\' {
            match sp_str_body(s, pos + 2) {
                Option::None => None,
                Option::Some((t, e)) => Some((seq![s[pos + 1]] + t, e)),
            }
        } else {
            None
        }
    } else {
        match sp_str_body(s, pos + 1) {
            Option::None => None,
            Option::Some((t, e)) => Some((seq![s[pos]] + t, e)),
        }
    }
}

/// Read a quoted string.
pub open spec fn sp_str(s: Seq<char>, pos: int) -> Option<(Seq<char>, int)> {
    if 0 <= pos < s.len() && s[pos] == '"' {
        sp_str_body(s, pos + 1)
    } else {
        None
    }
}

/// Read decimal digits into an accumulator, greedily; too large a value is
/// no number.
pub open spec fn sp_digits(s: Seq<char>, pos: int, acc: u64) -> Option<(u64, int)>
    decreases s.len() - pos,
    when 0 <= pos <= s.len()
{
    if pos < s.len() && is_digit(s[pos]) {
        if acc as int * 10 + digit_val(s[pos]) <= u64::MAX {
            sp_digits(s, pos + 1, (acc as int * 10 + digit_val(s[pos])) as u64)
        } else {
            None
        }
    } else {
        Some((acc, pos))
    }
}

/// Read an unsigned number: at least one digit.
pub open spec fn sp_u64(s: Seq<char>, pos: int) -> Option<(u64, int)> {
    if 0 <= pos < s.len() && is_digit(s[pos]) {
        sp_digits(s, pos, 0)
    } else {
        None
    }
}

/// Read a signed number.
pub open spec fn sp_i64(s: Seq<char>, pos: int) -> Option<(i64, int)> {
    if 0 <= pos < s.len() && s[pos] == '-' {
        match sp_u64(s, pos + 1) {
            Option::None => None,
            Option::Some((m, e)) => if m <= 0x8000_0000_0000_0000u64 {
                Some(((0 - m as int) as i64, e))
            } else {
                None
            },
        }
    } else {
        match sp_u64(s, pos) {
            Option::None => None,
            Option::Some((m, e)) => if m <= i64::MAX as u64 {
                Some((m as i64, e))
            } else {
                None
            },
        }
    }
}

// ------------------------------------------------------ round trips, atoms
/// Splitting a known subrange: when the text at `pos` spells `a + b`, it
/// spells `a` and then `b`.
pub proof fn lemma_subrange_split(s: Seq<char>, pos: int, a: Seq<char>, b: Seq<char>)
    requires
        0 <= pos,
        pos + a.len() + b.len() <= s.len(),
        s.subrange(pos, pos + a.len() + b.len()) == a + b,
    ensures
        s.subrange(pos, pos + a.len()) == a,
        s.subrange(pos + a.len(), pos + a.len() + b.len()) == b,
{
    let whole = s.subrange(pos, pos + a.len() + b.len());
    assert forall|i: int| 0 <= i < a.len() implies s.subrange(pos, pos + a.len())[i] == a[i] by {
        assert(whole[i] == (a + b)[i]);
    }
    assert(s.subrange(pos, pos + a.len()) =~= a);
    assert forall|i: int| 0 <= i < b.len() implies s.subrange(
        pos + a.len(),
        pos + a.len() + b.len(),
    )[i] == b[i] by {
        assert(whole[a.len() + i] == (a + b)[a.len() + i]);
    }
    assert(s.subrange(pos + a.len(), pos + a.len() + b.len()) =~= b);
}

/// A literal the text spells is read back.
pub proof fn lemma_sp_lit_rt(s: Seq<char>, pos: int, lit: Seq<char>)
    requires
        0 <= pos,
        pos + lit.len() <= s.len(),
        s.subrange(pos, pos + lit.len()) == lit,
    ensures
        sp_lit(s, pos, lit) == Some(pos + lit.len()),
{
}

/// A string body the encoder wrote, followed by its closing quote, is read
/// back exactly.
pub proof fn lemma_sp_str_body_rt(text: Seq<char>, s: Seq<char>, pos: int)
    requires
        0 <= pos,
        pos + esc_str(text).len() + 1 <= s.len(),
        s.subrange(pos, pos + esc_str(text).len()) == esc_str(text),
        s[pos + esc_str(text).len()] == '"',
    ensures
        sp_str_body(s, pos) == Some((text, pos + esc_str(text).len() + 1)),
    decreases text.len(),
{
    if text.len() == 0 {
        assert(esc_str(text).len() == 0);
        assert(s[pos] == '"');
    } else {
        let c = text[0];
        let rest = text.skip(1);
        let ec = esc_char(c);
        let er = esc_str(rest);
        assert(esc_str(text) == ec + er);
        lemma_subrange_split(s, pos, ec, er);
        let mid = pos + ec.len();
        assert(s.subrange(mid, mid + er.len()) == er);
        assert(s[mid + er.len()] == '"');
        lemma_sp_str_body_rt(rest, s, mid);
        assert(s[pos] == ec[0]) by {
            assert(s.subrange(pos, pos + ec.len())[0] == ec[0]);
        }
        if c == '"' {
            assert(s[pos + 1] == ec[1]) by {
                assert(s.subrange(pos, pos + ec.len())[1] == ec[1]);
            }
            assert(s[pos] == '\\' && s[pos + 1] == '"');
            assert(seq![s[pos + 1]] + rest =~= text);
        } else if c == '\\' {
            assert(s[pos + 1] == ec[1]) by {
                assert(s.subrange(pos, pos + ec.len())[1] == ec[1]);
            }
            assert(s[pos] == '\\' && s[pos + 1] == '\\');
            assert(seq![s[pos + 1]] + rest =~= text);
        } else {
            assert(ec == seq![c]);
            assert(s[pos] == c);
            assert(seq![s[pos]] + rest =~= text);
        }
    }
}

/// A quoted string the encoder wrote is read back exactly.
pub proof fn lemma_sp_str_rt(text: Seq<char>, s: Seq<char>, pos: int)
    requires
        0 <= pos,
        pos + enc_str(text).len() <= s.len(),
        s.subrange(pos, pos + enc_str(text).len()) == enc_str(text),
    ensures
        sp_str(s, pos) == Some((text, pos + enc_str(text).len())),
{
    let e = esc_str(text);
    assert(enc_str(text).len() == e.len() + 2);
    assert(s[pos] == enc_str(text)[0]) by {
        assert(s.subrange(pos, pos + enc_str(text).len())[0] == enc_str(text)[0]);
    }
    assert(enc_str(text)[0] == '"');
    assert(s[pos] == '"');
    assert forall|i: int| 0 <= i < e.len() implies s.subrange(pos + 1, pos + 1 + e.len())[i]
        == e[i] by {
        assert(enc_str(text)[1 + i] == e[i]);
        assert(s[pos + 1 + i] == enc_str(text)[1 + i]) by {
            assert(s.subrange(pos, pos + enc_str(text).len())[1 + i] == enc_str(text)[1 + i]);
        }
    }
    assert(s.subrange(pos + 1, pos + 1 + e.len()) =~= e);
    assert(s[pos + 1 + e.len()] == enc_str(text)[1 + e.len() as int]) by {
        assert(s.subrange(pos, pos + enc_str(text).len())[1 + e.len() as int] == enc_str(
            text,
        )[1 + e.len() as int]);
    }
    assert(enc_str(text)[1 + e.len() as int] == '"');
    lemma_sp_str_body_rt(text, s, pos + 1);
}

/// Digits the encoder wrote, with no digit following, are read back into the
/// accumulator.
proof fn lemma_sp_digits_rt(ds: Seq<char>, s: Seq<char>, pos: int, acc: u64)
    requires
        0 <= pos,
        pos + ds.len() <= s.len(),
        s.subrange(pos, pos + ds.len()) == ds,
        ds.len() > 0,
        forall|k: int| 0 <= k < ds.len() ==> is_digit(#[trigger] ds[k]),
        pos + ds.len() == s.len() || !is_digit(s[pos + ds.len()]),
        acc * pow10(ds.len() as nat) + digits_value(ds) <= u64::MAX,
    ensures
        sp_digits(s, pos, acc) == Some(
            ((acc * pow10(ds.len() as nat) + digits_value(ds)) as u64, pos + ds.len()),
        ),
    decreases ds.len(),
{
    assert forall|i: int| 0 <= i < ds.len() implies s[pos + i] == ds[i] by {
        assert(s.subrange(pos, pos + ds.len())[i] == ds[i]);
    }
    let d = digit_val(ds[0]);
    let n1 = (ds.len() - 1) as nat;
    let p = pow10(n1);
    lemma_digits_value_front(ds);
    lemma_digits_value_nonneg(ds.skip(1));
    assert(digits_value(ds) == d * p + digits_value(ds.skip(1)));
    assert(pow10(ds.len() as nat) == 10 * p);
    assert(p >= 1) by {
        lemma_pow10_pos(n1);
    }
    // The head digit fits: the whole value bounds it.
    assert(acc * (10 * p) == (acc * 10) * p) by (nonlinear_arith);
    assert(d * p >= d) by (nonlinear_arith)
        requires
            p >= 1,
            d >= 0,
    ;
    assert((acc * 10) * p >= acc * 10) by (nonlinear_arith)
        requires
            p >= 1,
            acc >= 0,
    ;
    assert((acc * 10) * p + d * p <= acc * (10 * p) + digits_value(ds));
    assert(acc as int * 10 + d <= u64::MAX);
    let acc2 = (acc as int * 10 + d) as u64;
    if ds.len() == 1 {
        assert(ds.skip(1) =~= Seq::<char>::empty());
        assert(digits_value(Seq::<char>::empty()) == 0);
        assert(pos + 1 == s.len() || !is_digit(s[pos + 1]));
        assert(sp_digits(s, pos + 1, acc2) == Some((acc2, pos + 1)));
        assert(pow10(1) == 10 * pow10(0) && pow10(0) == 1);
        assert(digits_value(ds) == d * 1 + 0);
        assert(d * 1 == d) by (nonlinear_arith);
        assert(acc * pow10(1) + digits_value(ds) == acc * 10 + d);
    } else {
        let rest = ds.skip(1);
        assert(rest.len() > 0);
        assert forall|i: int| 0 <= i < rest.len() implies s.subrange(
            pos + 1,
            pos + 1 + rest.len(),
        )[i] == rest[i] by {
            assert(ds[1 + i] == rest[i]);
        }
        assert(s.subrange(pos + 1, pos + 1 + rest.len()) =~= rest);
        assert(acc2 * pow10(rest.len() as nat) + digits_value(rest) == acc * pow10(
            ds.len() as nat,
        ) + digits_value(ds)) by {
            assert(pow10(rest.len() as nat) == p);
            assert((acc * 10 + d) * p == (acc * 10) * p + d * p) by (nonlinear_arith);
        }
        lemma_sp_digits_rt(rest, s, pos + 1, acc2);
    }
}

/// Powers of ten are positive.
proof fn lemma_pow10_pos(n: nat)
    ensures
        pow10(n) >= 1,
    decreases n,
{
    if n > 0 {
        lemma_pow10_pos((n - 1) as nat);
    }
}

/// An unsigned number the encoder wrote, with no digit following, is read
/// back exactly.
pub proof fn lemma_sp_u64_rt(v: u64, s: Seq<char>, pos: int)
    requires
        0 <= pos,
        pos + enc_u64(v).len() <= s.len(),
        s.subrange(pos, pos + enc_u64(v).len()) == enc_u64(v),
        pos + enc_u64(v).len() == s.len() || !is_digit(s[pos + enc_u64(v).len()]),
    ensures
        sp_u64(s, pos) == Some((v, pos + enc_u64(v).len())),
{
    let ds = enc_u64(v);
    lemma_dec_u64_digits(v as nat);
    lemma_dec_u64_value(v as nat);
    assert(s[pos] == ds[0]) by {
        assert(s.subrange(pos, pos + ds.len())[0] == ds[0]);
    }
    assert(0 * pow10(ds.len() as nat) == 0) by (nonlinear_arith);
    lemma_sp_digits_rt(ds, s, pos, 0);
}

/// A signed number the encoder wrote, with no digit following, is read back
/// exactly.
pub proof fn lemma_sp_i64_rt(v: i64, s: Seq<char>, pos: int)
    requires
        0 <= pos,
        pos + enc_i64(v).len() <= s.len(),
        s.subrange(pos, pos + enc_i64(v).len()) == enc_i64(v),
        pos + enc_i64(v).len() == s.len() || !is_digit(s[pos + enc_i64(v).len()]),
    ensures
        sp_i64(s, pos) == Some((v, pos + enc_i64(v).len())),
{
    if v < 0 {
        let m = (0 - v as int) as u64;
        let ds = dec_u64(m as nat);
        assert(enc_i64(v) == seq!['-'] + ds);
        lemma_subrange_split(s, pos, seq!['-'], ds);
        assert(s[pos] == '-') by {
            assert(s.subrange(pos, pos + 1)[0] == '-');
        }
        lemma_dec_u64_digits(m as nat);
        lemma_sp_u64_rt(m, s, pos + 1);
        assert(m <= 0x8000_0000_0000_0000u64);
        assert((0 - m as int) as i64 == v);
    } else {
        let ds = dec_u64(v as nat);
        lemma_dec_u64_digits(v as nat);
        assert(s[pos] == ds[0]) by {
            assert(s.subrange(pos, pos + ds.len())[0] == ds[0]);
        }
        assert(is_digit(ds[0]));
        assert(s[pos] != '-');
        lemma_sp_u64_rt(v as u64, s, pos);
        assert(v as u64 <= i64::MAX as u64);
    }
}

// ------------------------------------------------------------- structures
// Composite encodings are written right-associated, so a round-trip proof
// peels one piece at a time off the front.
/// An optional unsigned byte: `null` or the number.
pub open spec fn enc_opt_u8(o: Option<u8>) -> Seq<char> {
    match o {
        Option::None => "null"@,
        Option::Some(v) => enc_u64(v as u64),
    }
}

/// An optional signed number: `null` or the number.
pub open spec fn enc_opt_i64(o: Option<i64>) -> Seq<char> {
    match o {
        Option::None => "null"@,
        Option::Some(v) => enc_i64(v),
    }
}

/// The hi-res settings object.
pub open spec fn enc_hires(h: HiResView) -> Seq<char> {
    "{\"upscaler\":"@ + (enc_str(h.upscaler) + (",\"upscale_by_milli\":"@ + (enc_u64(
        h.upscale_by_milli as u64,
    ) + (",\"denoising_milli\":"@ + (enc_u64(h.denoising_milli as u64) + (",\"steps\":"@ + (
    enc_u64(h.steps as u64) + "}"@)))))))
}

/// An optional hi-res object: `null` or the object.
pub open spec fn enc_opt_hires(o: Option<HiResView>) -> Seq<char> {
    match o {
        Option::None => "null"@,
        Option::Some(h) => enc_hires(h),
    }
}

/// The post-process object.
pub open spec fn enc_post(p: PostView) -> Seq<char> {
    match p {
        PostView::Resize { scale_by_milli } => "{\"resize\":{\"scale_by_milli\":"@ + (enc_u64(
            scale_by_milli as u64,
        ) + "}}"@),
    }
}

/// An optional post-process object: `null` or the object.
pub open spec fn enc_opt_post(o: Option<PostView>) -> Seq<char> {
    match o {
        Option::None => "null"@,
        Option::Some(p) => enc_post(p),
    }
}

/// The four text fields of a record, with the object's opening brace.
pub open spec fn enc_img_texts(p: ParamsView) -> Seq<char> {
    "{\"positive\":"@ + (enc_str(p.positive) + (",\"negative\":"@ + (enc_str(p.negative) + (
    ",\"model\":"@ + (enc_str(p.model) + (",\"sampler\":"@ + enc_str(p.sampler)))))))
}

/// The four plain number fields of a record.
pub open spec fn enc_img_nums(p: ParamsView) -> Seq<char> {
    ",\"steps\":"@ + (enc_u64(p.steps as u64) + (",\"width\":"@ + (enc_u64(p.width as u64) + (
    ",\"height\":"@ + (enc_u64(p.height as u64) + (",\"cfg_milli\":"@ + enc_u64(
        p.cfg_milli as u64,
    )))))))
}

/// The four optional fields of a record, with the object's closing brace.
pub open spec fn enc_img_opts(p: ParamsView) -> Seq<char> {
    ",\"clip_skip\":"@ + (enc_opt_u8(p.clip_skip) + (",\"seed\":"@ + (enc_opt_i64(p.seed) + (
    ",\"hires\":"@ + (enc_opt_hires(p.hires) + (",\"post_process\":"@ + (enc_opt_post(
        p.post_process,
    ) + "}"@)))))))
}

/// One parameter record as a JSON object.
pub open spec fn enc_img(p: ParamsView) -> Seq<char> {
    enc_img_texts(p) + (enc_img_nums(p) + enc_img_opts(p))
}

/// The records of a log, comma-separated.
pub open spec fn enc_imgs(images: Seq<ParamsView>) -> Seq<char>
    decreases images.len(),
{
    if images.len() == 0 {
        Seq::empty()
    } else if images.len() == 1 {
        enc_img(images[0])
    } else {
        enc_img(images[0]) + (","@ + enc_imgs(images.skip(1)))
    }
}

/// A whole log file: the template name and the record array.
pub open spec fn enc_log(template: Seq<char>, images: Seq<ParamsView>) -> Seq<char> {
    "{\"template\":"@ + (enc_str(template) + (",\"images\":["@ + (enc_imgs(images) + "]}"@)))
}

// ---------------------------------------------------- parsing, structures
/// Read an unsigned number that must fit 32 bits.
pub open spec fn sp_u32(s: Seq<char>, pos: int) -> Option<(u32, int)> {
    match sp_u64(s, pos) {
        Option::None => None,
        Option::Some((m, e)) => if m <= u32::MAX as u64 {
            Some((m as u32, e))
        } else {
            None
        },
    }
}

/// Read an unsigned number that must fit 8 bits.
pub open spec fn sp_u8(s: Seq<char>, pos: int) -> Option<(u8, int)> {
    match sp_u64(s, pos) {
        Option::None => None,
        Option::Some((m, e)) => if m <= u8::MAX as u64 {
            Some((m as u8, e))
        } else {
            None
        },
    }
}

/// Read `null` or an unsigned byte.
pub open spec fn sp_opt_u8(s: Seq<char>, pos: int) -> Option<(Option<u8>, int)> {
    match sp_lit(s, pos, "null"@) {
        Option::Some(e) => Some((None::<u8>, e)),
        Option::None => match sp_u8(s, pos) {
            Option::None => None,
            Option::Some((v, e)) => Some((Some(v), e)),
        },
    }
}

/// Read `null` or a signed number.
pub open spec fn sp_opt_i64(s: Seq<char>, pos: int) -> Option<(Option<i64>, int)> {
    match sp_lit(s, pos, "null"@) {
        Option::Some(e) => Some((None::<i64>, e)),
        Option::None => match sp_i64(s, pos) {
            Option::None => None,
            Option::Some((v, e)) => Some((Some(v), e)),
        },
    }
}

/// Read a hi-res settings object.
pub open spec fn sp_hires(s: Seq<char>, pos: int) -> Option<(HiResView, int)> {
    match sp_lit(s, pos, "{\"upscaler\":"@) {
        Option::None => None,
        Option::Some(p1) => match sp_str(s, p1) {
            Option::None => None,
            Option::Some((upscaler, p2)) => match sp_lit(s, p2, ",\"upscale_by_milli\":"@) {
                Option::None => None,
                Option::Some(p3) => match sp_u32(s, p3) {
                    Option::None => None,
                    Option::Some((upscale_by_milli, p4)) => match sp_lit(
                        s,
                        p4,
                        ",\"denoising_milli\":"@,
                    ) {
                        Option::None => None,
                        Option::Some(p5) => match sp_u32(s, p5) {
                            Option::None => None,
                            Option::Some((denoising_milli, p6)) => match sp_lit(
                                s,
                                p6,
                                ",\"steps\":"@,
                            ) {
                                Option::None => None,
                                Option::Some(p7) => match sp_u8(s, p7) {
                                    Option::None => None,
                                    Option::Some((steps, p8)) => match sp_lit(s, p8, "}"@) {
                                        Option::None => None,
                                        Option::Some(p9) => Some(
                                            (
                                                HiResView {
                                                    upscaler,
                                                    upscale_by_milli,
                                                    denoising_milli,
                                                    steps,
                                                },
                                                p9,
                                            ),
                                        ),
                                    },
                                },
                            },
                        },
                    },
                },
            },
        },
    }
}

/// Read a post-process object.
pub open spec fn sp_post(s: Seq<char>, pos: int) -> Option<(PostView, int)> {
    match sp_lit(s, pos, "{\"resize\":{\"scale_by_milli\":"@) {
        Option::None => None,
        Option::Some(p1) => match sp_u32(s, p1) {
            Option::None => None,
            Option::Some((scale_by_milli, p2)) => match sp_lit(s, p2, "}}"@) {
                Option::None => None,
                Option::Some(p3) => Some((PostView::Resize { scale_by_milli }, p3)),
            },
        },
    }
}

/// Read `null` or a hi-res object.
pub open spec fn sp_opt_hires(s: Seq<char>, pos: int) -> Option<(Option<HiResView>, int)> {
    match sp_lit(s, pos, "null"@) {
        Option::Some(e) => Some((None::<HiResView>, e)),
        Option::None => match sp_hires(s, pos) {
            Option::None => None,
            Option::Some((h, e)) => Some((Some(h), e)),
        },
    }
}

/// Read `null` or a post-process object.
pub open spec fn sp_opt_post(s: Seq<char>, pos: int) -> Option<(Option<PostView>, int)> {
    match sp_lit(s, pos, "null"@) {
        Option::Some(e) => Some((None::<PostView>, e)),
        Option::None => match sp_post(s, pos) {
            Option::None => None,
            Option::Some((p, e)) => Some((Some(p), e)),
        },
    }
}

/// Read the text fields of a record.
pub open spec fn sp_img_texts(s: Seq<char>, pos: int) -> Option<
    ((Seq<char>, Seq<char>, Seq<char>, Seq<char>), int),
> {
    match sp_lit(s, pos, "{\"positive\":"@) {
        Option::None => None,
        Option::Some(p1) => match sp_str(s, p1) {
            Option::None => None,
            Option::Some((positive, p2)) => match sp_lit(s, p2, ",\"negative\":"@) {
                Option::None => None,
                Option::Some(p3) => match sp_str(s, p3) {
                    Option::None => None,
                    Option::Some((negative, p4)) => match sp_lit(s, p4, ",\"model\":"@) {
                        Option::None => None,
                        Option::Some(p5) => match sp_str(s, p5) {
                            Option::None => None,
                            Option::Some((model, p6)) => match sp_lit(s, p6, ",\"sampler\":"@) {
                                Option::None => None,
                                Option::Some(p7) => match sp_str(s, p7) {
                                    Option::None => None,
                                    Option::Some((sampler, p8)) => Some(
                                        ((positive, negative, model, sampler), p8),
                                    ),
                                },
                            },
                        },
                    },
                },
            },
        },
    }
}

/// Read the plain number fields of a record.
pub open spec fn sp_img_nums(s: Seq<char>, pos: int) -> Option<((u32, u32, u32, u32), int)> {
    match sp_lit(s, pos, ",\"steps\":"@) {
        Option::None => None,
        Option::Some(p1) => match sp_u32(s, p1) {
            Option::None => None,
            Option::Some((steps, p2)) => match sp_lit(s, p2, ",\"width\":"@) {
                Option::None => None,
                Option::Some(p3) => match sp_u32(s, p3) {
                    Option::None => None,
                    Option::Some((width, p4)) => match sp_lit(s, p4, ",\"height\":"@) {
                        Option::None => None,
                        Option::Some(p5) => match sp_u32(s, p5) {
                            Option::None => None,
                            Option::Some((height, p6)) => match sp_lit(s, p6, ",\"cfg_milli\":"@) {
                                Option::None => None,
                                Option::Some(p7) => match sp_u32(s, p7) {
                                    Option::None => None,
                                    Option::Some((cfg_milli, p8)) => Some(
                                        ((steps, width, height, cfg_milli), p8),
                                    ),
                                },
                            },
                        },
                    },
                },
            },
        },
    }
}

/// Read the optional fields of a record and its closing brace.
pub open spec fn sp_img_opts(s: Seq<char>, pos: int) -> Option<
    ((Option<u8>, Option<i64>, Option<HiResView>, Option<PostView>), int),
> {
    match sp_lit(s, pos, ",\"clip_skip\":"@) {
        Option::None => None,
        Option::Some(p1) => match sp_opt_u8(s, p1) {
            Option::None => None,
            Option::Some((clip_skip, p2)) => match sp_lit(s, p2, ",\"seed\":"@) {
                Option::None => None,
                Option::Some(p3) => match sp_opt_i64(s, p3) {
                    Option::None => None,
                    Option::Some((seed, p4)) => match sp_lit(s, p4, ",\"hires\":"@) {
                        Option::None => None,
                        Option::Some(p5) => match sp_opt_hires(s, p5) {
                            Option::None => None,
                            Option::Some((hires, p6)) => match sp_lit(
                                s,
                                p6,
                                ",\"post_process\":"@,
                            ) {
                                Option::None => None,
                                Option::Some(p7) => match sp_opt_post(s, p7) {
                                    Option::None => None,
                                    Option::Some((post_process, p8)) => match sp_lit(s, p8, "}"@) {
                                        Option::None => None,
                                        Option::Some(p9) => Some(
                                            ((clip_skip, seed, hires, post_process), p9),
                                        ),
                                    },
                                },
                            },
                        },
                    },
                },
            },
        },
    }
}

/// Read one parameter record.
pub open spec fn sp_img(s: Seq<char>, pos: int) -> Option<(ParamsView, int)> {
    match sp_img_texts(s, pos) {
        Option::None => None,
        Option::Some(((positive, negative, model, sampler), p1)) => match sp_img_nums(s, p1) {
            Option::None => None,
            Option::Some(((steps, width, height, cfg_milli), p2)) => match sp_img_opts(s, p2) {
                Option::None => None,
                Option::Some(((clip_skip, seed, hires, post_process), p3)) => Some(
                    (
                        ParamsView {
                            positive,
                            negative,
                            model,
                            sampler,
                            steps,
                            width,
                            height,
                            cfg_milli,
                            clip_skip,
                            seed,
                            hires,
                            post_process,
                        },
                        p3,
                    ),
                ),
            },
        },
    }
}

/// Read records separated by commas, up to the closing bracket.
pub open spec fn sp_images_tail(s: Seq<char>, pos: int) -> Option<(Seq<ParamsView>, int)>
    decreases s.len() - pos,
    when 0 <= pos <= s.len()
{
    match sp_img(s, pos) {
        Option::None => None,
        Option::Some((v, e)) => if pos < e && e < s.len() {
            if s[e] == ',' {
                match sp_images_tail(s, e + 1) {
                    Option::None => None,
                    Option::Some((rest, e2)) => Some((seq![v] + rest, e2)),
                }
            } else if s[e] == ']' {
                Some((seq![v], e + 1))
            } else {
                None
            }
        } else {
            None
        },
    }
}

/// Read the whole record array after its opening bracket.
pub open spec fn sp_images(s: Seq<char>, pos: int) -> Option<(Seq<ParamsView>, int)> {
    if 0 <= pos < s.len() && s[pos] == ']' {
        Some((Seq::empty(), pos + 1))
    } else {
        sp_images_tail(s, pos)
    }
}

/// Read a whole log file; the text must hold exactly one log and nothing
/// after it.
pub open spec fn sp_log(s: Seq<char>) -> Option<(Seq<char>, Seq<ParamsView>)> {
    match sp_lit(s, 0, "{\"template\":"@) {
        Option::None => None,
        Option::Some(p1) => match sp_str(s, p1) {
            Option::None => None,
            Option::Some((template, p2)) => match sp_lit(s, p2, ",\"images\":["@) {
                Option::None => None,
                Option::Some(p3) => match sp_images(s, p3) {
                    Option::None => None,
                    Option::Some((images, p4)) => match sp_lit(s, p4, "}"@) {
                        Option::None => None,
                        Option::Some(p5) => if p5 == s.len() {
                            Some((template, images))
                        } else {
                            None
                        },
                    },
                },
            },
        },
    }
}

// ------------------------------------------------ round trips, structures
/// Peeling the front piece off a known stretch of text: the piece is there,
/// the rest follows it, and the rest's first character is visible.
proof fn lemma_peel(s: Seq<char>, c: int, a: Seq<char>, b: Seq<char>)
    requires
        0 <= c,
        c + a.len() + b.len() <= s.len(),
        s.subrange(c, c + a.len() + b.len()) == a + b,
    ensures
        s.subrange(c, c + a.len()) == a,
        s.subrange(c + a.len(), c + a.len() + b.len()) == b,
        b.len() > 0 ==> s[c + a.len()] == b[0],
{
    lemma_subrange_split(s, c, a, b);
    if b.len() > 0 {
        assert(s[c + a.len()] == s.subrange(c + a.len(), c + a.len() + b.len())[0]);
    }
}

/// Text that starts with anything but `n` does not spell `null`.
proof fn lemma_not_null(s: Seq<char>, c: int, first: char)
    requires
        0 <= c < s.len(),
        s[c] == first,
        first != 'n',
    ensures
        sp_lit(s, c, "null"@) is None,
{
    reveal_strlit("null");
    if c + "null"@.len() <= s.len() && s.subrange(c, c + "null"@.len()) == "null"@ {
        assert(s[c] == 'n') by {
            assert(s.subrange(c, c + "null"@.len())[0] == "null"@[0]);
        }
    }
}

/// The first character of a stretch of known text.
proof fn lemma_first_char(s: Seq<char>, c: int, a: Seq<char>)
    requires
        0 <= c,
        c + a.len() <= s.len(),
        s.subrange(c, c + a.len()) == a,
        a.len() > 0,
    ensures
        s[c] == a[0],
{
    assert(s.subrange(c, c + a.len())[0] == a[0]);
}

/// An optional byte the encoder wrote, with no digit following, is read back.
pub proof fn lemma_sp_opt_u8_rt(o: Option<u8>, s: Seq<char>, pos: int)
    requires
        0 <= pos,
        pos + enc_opt_u8(o).len() <= s.len(),
        s.subrange(pos, pos + enc_opt_u8(o).len()) == enc_opt_u8(o),
        pos + enc_opt_u8(o).len() == s.len() || !is_digit(s[pos + enc_opt_u8(o).len()]),
    ensures
        sp_opt_u8(s, pos) == Some((o, pos + enc_opt_u8(o).len())),
{
    reveal_strlit("null");
    match o {
        Option::None => {
            lemma_sp_lit_rt(s, pos, "null"@);
        },
        Option::Some(v) => {
            lemma_dec_u64_digits(v as nat);
            lemma_first_char(s, pos, enc_u64(v as u64));
            lemma_not_null(s, pos, enc_u64(v as u64)[0]);
            lemma_sp_u64_rt(v as u64, s, pos);
        },
    }
}

/// An optional signed number the encoder wrote, with no digit following, is
/// read back.
pub proof fn lemma_sp_opt_i64_rt(o: Option<i64>, s: Seq<char>, pos: int)
    requires
        0 <= pos,
        pos + enc_opt_i64(o).len() <= s.len(),
        s.subrange(pos, pos + enc_opt_i64(o).len()) == enc_opt_i64(o),
        pos + enc_opt_i64(o).len() == s.len() || !is_digit(s[pos + enc_opt_i64(o).len()]),
    ensures
        sp_opt_i64(s, pos) == Some((o, pos + enc_opt_i64(o).len())),
{
    reveal_strlit("null");
    match o {
        Option::None => {
            lemma_sp_lit_rt(s, pos, "null"@);
        },
        Option::Some(v) => {
            lemma_first_char(s, pos, enc_i64(v));
            if v < 0 {
                assert(enc_i64(v)[0] == '-');
            } else {
                lemma_dec_u64_digits(v as nat);
                assert(is_digit(enc_i64(v)[0]));
            }
            lemma_not_null(s, pos, enc_i64(v)[0]);
            lemma_sp_i64_rt(v, s, pos);
        },
    }
}

/// A hi-res object the encoder wrote is read back exactly.
pub proof fn lemma_sp_hires_rt(h: HiResView, s: Seq<char>, pos: int)
    requires
        0 <= pos,
        pos + enc_hires(h).len() <= s.len(),
        s.subrange(pos, pos + enc_hires(h).len()) == enc_hires(h),
    ensures
        sp_hires(s, pos) == Some((h, pos + enc_hires(h).len())),
{
    reveal_strlit("{\"upscaler\":");
    reveal_strlit(",\"upscale_by_milli\":");
    reveal_strlit(",\"denoising_milli\":");
    reveal_strlit(",\"steps\":");
    reveal_strlit("}");
    let l1 = "{\"upscaler\":"@;
    let v1 = enc_str(h.upscaler);
    let l2 = ",\"upscale_by_milli\":"@;
    let v2 = enc_u64(h.upscale_by_milli as u64);
    let l3 = ",\"denoising_milli\":"@;
    let v3 = enc_u64(h.denoising_milli as u64);
    let l4 = ",\"steps\":"@;
    let v4 = enc_u64(h.steps as u64);
    let l5 = "}"@;
    let r1 = v1 + (l2 + (v2 + (l3 + (v3 + (l4 + (v4 + l5))))));
    lemma_peel(s, pos, l1, r1);
    lemma_sp_lit_rt(s, pos, l1);
    let c1 = pos + l1.len();
    lemma_peel(s, c1, v1, l2 + (v2 + (l3 + (v3 + (l4 + (v4 + l5))))));
    lemma_sp_str_rt(h.upscaler, s, c1);
    let c2 = c1 + v1.len();
    lemma_peel(s, c2, l2, v2 + (l3 + (v3 + (l4 + (v4 + l5)))));
    lemma_sp_lit_rt(s, c2, l2);
    let c3 = c2 + l2.len();
    lemma_peel(s, c3, v2, l3 + (v3 + (l4 + (v4 + l5))));
    assert(s[c3 + v2.len()] == l3[0]);
    lemma_sp_u64_rt(h.upscale_by_milli as u64, s, c3);
    let c4 = c3 + v2.len();
    lemma_peel(s, c4, l3, v3 + (l4 + (v4 + l5)));
    lemma_sp_lit_rt(s, c4, l3);
    let c5 = c4 + l3.len();
    lemma_peel(s, c5, v3, l4 + (v4 + l5));
    assert(s[c5 + v3.len()] == l4[0]);
    lemma_sp_u64_rt(h.denoising_milli as u64, s, c5);
    let c6 = c5 + v3.len();
    lemma_peel(s, c6, l4, v4 + l5);
    lemma_sp_lit_rt(s, c6, l4);
    let c7 = c6 + l4.len();
    lemma_peel(s, c7, v4, l5);
    assert(s[c7 + v4.len()] == l5[0]);
    lemma_sp_u64_rt(h.steps as u64, s, c7);
    let c8 = c7 + v4.len();
    lemma_sp_lit_rt(s, c8, l5);
    assert(HiResView {
        upscaler: h.upscaler,
        upscale_by_milli: h.upscale_by_milli,
        denoising_milli: h.denoising_milli,
        steps: h.steps,
    } == h);
}

/// A post-process object the encoder wrote is read back exactly.
pub proof fn lemma_sp_post_rt(p: PostView, s: Seq<char>, pos: int)
    requires
        0 <= pos,
        pos + enc_post(p).len() <= s.len(),
        s.subrange(pos, pos + enc_post(p).len()) == enc_post(p),
    ensures
        sp_post(s, pos) == Some((p, pos + enc_post(p).len())),
{
    reveal_strlit("{\"resize\":{\"scale_by_milli\":");
    reveal_strlit("}}");
    let l1 = "{\"resize\":{\"scale_by_milli\":"@;
    let scale = p->Resize_scale_by_milli;
    let v1 = enc_u64(scale as u64);
    let l2 = "}}"@;
    lemma_peel(s, pos, l1, v1 + l2);
    lemma_sp_lit_rt(s, pos, l1);
    let c1 = pos + l1.len();
    lemma_peel(s, c1, v1, l2);
    assert(s[c1 + v1.len()] == l2[0]);
    lemma_sp_u64_rt(scale as u64, s, c1);
    let c2 = c1 + v1.len();
    lemma_sp_lit_rt(s, c2, l2);
    assert(PostView::Resize { scale_by_milli: scale } == p);
}

/// An optional hi-res object the encoder wrote is read back.
pub proof fn lemma_sp_opt_hires_rt(o: Option<HiResView>, s: Seq<char>, pos: int)
    requires
        0 <= pos,
        pos + enc_opt_hires(o).len() <= s.len(),
        s.subrange(pos, pos + enc_opt_hires(o).len()) == enc_opt_hires(o),
    ensures
        sp_opt_hires(s, pos) == Some((o, pos + enc_opt_hires(o).len())),
{
    reveal_strlit("null");
    match o {
        Option::None => {
            lemma_sp_lit_rt(s, pos, "null"@);
        },
        Option::Some(h) => {
            reveal_strlit("{\"upscaler\":");
            assert(enc_hires(h)[0] == '{') by {
                assert(enc_hires(h)[0] == "{\"upscaler\":"@[0]);
            }
            lemma_first_char(s, pos, enc_hires(h));
            lemma_not_null(s, pos, '{');
            lemma_sp_hires_rt(h, s, pos);
        },
    }
}

/// An optional post-process object the encoder wrote is read back.
pub proof fn lemma_sp_opt_post_rt(o: Option<PostView>, s: Seq<char>, pos: int)
    requires
        0 <= pos,
        pos + enc_opt_post(o).len() <= s.len(),
        s.subrange(pos, pos + enc_opt_post(o).len()) == enc_opt_post(o),
    ensures
        sp_opt_post(s, pos) == Some((o, pos + enc_opt_post(o).len())),
{
    reveal_strlit("null");
    match o {
        Option::None => {
            lemma_sp_lit_rt(s, pos, "null"@);
        },
        Option::Some(p) => {
            reveal_strlit("{\"resize\":{\"scale_by_milli\":");
            assert(enc_post(p)[0] == '{') by {
                assert(enc_post(p)[0] == "{\"resize\":{\"scale_by_milli\":"@[0]);
            }
            lemma_first_char(s, pos, enc_post(p));
            lemma_not_null(s, pos, '{');
            lemma_sp_post_rt(p, s, pos);
        },
    }
}

/// The text fields the encoder wrote are read back exactly.
proof fn lemma_sp_img_texts_rt(p: ParamsView, s: Seq<char>, pos: int)
    requires
        0 <= pos,
        pos + enc_img_texts(p).len() <= s.len(),
        s.subrange(pos, pos + enc_img_texts(p).len()) == enc_img_texts(p),
    ensures
        sp_img_texts(s, pos) == Some(
            ((p.positive, p.negative, p.model, p.sampler), pos + enc_img_texts(p).len()),
        ),
{
    let l1 = "{\"positive\":"@;
    let v1 = enc_str(p.positive);
    let l2 = ",\"negative\":"@;
    let v2 = enc_str(p.negative);
    let l3 = ",\"model\":"@;
    let v3 = enc_str(p.model);
    let l4 = ",\"sampler\":"@;
    let v4 = enc_str(p.sampler);
    lemma_peel(s, pos, l1, v1 + (l2 + (v2 + (l3 + (v3 + (l4 + v4))))));
    lemma_sp_lit_rt(s, pos, l1);
    let c1 = pos + l1.len();
    lemma_peel(s, c1, v1, l2 + (v2 + (l3 + (v3 + (l4 + v4)))));
    lemma_sp_str_rt(p.positive, s, c1);
    let c2 = c1 + v1.len();
    lemma_peel(s, c2, l2, v2 + (l3 + (v3 + (l4 + v4))));
    lemma_sp_lit_rt(s, c2, l2);
    let c3 = c2 + l2.len();
    lemma_peel(s, c3, v2, l3 + (v3 + (l4 + v4)));
    lemma_sp_str_rt(p.negative, s, c3);
    let c4 = c3 + v2.len();
    lemma_peel(s, c4, l3, v3 + (l4 + v4));
    lemma_sp_lit_rt(s, c4, l3);
    let c5 = c4 + l3.len();
    lemma_peel(s, c5, v3, l4 + v4);
    lemma_sp_str_rt(p.model, s, c5);
    let c6 = c5 + v3.len();
    lemma_peel(s, c6, l4, v4);
    lemma_sp_lit_rt(s, c6, l4);
    let c7 = c6 + l4.len();
    lemma_sp_str_rt(p.sampler, s, c7);
}

/// The number fields the encoder wrote, with no digit following, are read
/// back exactly.
proof fn lemma_sp_img_nums_rt(p: ParamsView, s: Seq<char>, pos: int)
    requires
        0 <= pos,
        pos + enc_img_nums(p).len() <= s.len(),
        s.subrange(pos, pos + enc_img_nums(p).len()) == enc_img_nums(p),
        pos + enc_img_nums(p).len() == s.len() || !is_digit(s[pos + enc_img_nums(p).len()]),
    ensures
        sp_img_nums(s, pos) == Some(
            ((p.steps, p.width, p.height, p.cfg_milli), pos + enc_img_nums(p).len()),
        ),
{
    reveal_strlit(",\"steps\":");
    reveal_strlit(",\"width\":");
    reveal_strlit(",\"height\":");
    reveal_strlit(",\"cfg_milli\":");
    let l1 = ",\"steps\":"@;
    let v1 = enc_u64(p.steps as u64);
    let l2 = ",\"width\":"@;
    let v2 = enc_u64(p.width as u64);
    let l3 = ",\"height\":"@;
    let v3 = enc_u64(p.height as u64);
    let l4 = ",\"cfg_milli\":"@;
    let v4 = enc_u64(p.cfg_milli as u64);
    lemma_peel(s, pos, l1, v1 + (l2 + (v2 + (l3 + (v3 + (l4 + v4))))));
    lemma_sp_lit_rt(s, pos, l1);
    let c1 = pos + l1.len();
    lemma_peel(s, c1, v1, l2 + (v2 + (l3 + (v3 + (l4 + v4)))));
    assert(s[c1 + v1.len()] == l2[0]);
    lemma_sp_u64_rt(p.steps as u64, s, c1);
    let c2 = c1 + v1.len();
    lemma_peel(s, c2, l2, v2 + (l3 + (v3 + (l4 + v4))));
    lemma_sp_lit_rt(s, c2, l2);
    let c3 = c2 + l2.len();
    lemma_peel(s, c3, v2, l3 + (v3 + (l4 + v4)));
    assert(s[c3 + v2.len()] == l3[0]);
    lemma_sp_u64_rt(p.width as u64, s, c3);
    let c4 = c3 + v2.len();
    lemma_peel(s, c4, l3, v3 + (l4 + v4));
    lemma_sp_lit_rt(s, c4, l3);
    let c5 = c4 + l3.len();
    lemma_peel(s, c5, v3, l4 + v4);
    assert(s[c5 + v3.len()] == l4[0]);
    lemma_sp_u64_rt(p.height as u64, s, c5);
    let c6 = c5 + v3.len();
    lemma_peel(s, c6, l4, v4);
    lemma_sp_lit_rt(s, c6, l4);
    let c7 = c6 + l4.len();
    lemma_sp_u64_rt(p.cfg_milli as u64, s, c7);
}

/// The optional fields the encoder wrote are read back exactly.
proof fn lemma_sp_img_opts_rt(p: ParamsView, s: Seq<char>, pos: int)
    requires
        0 <= pos,
        pos + enc_img_opts(p).len() <= s.len(),
        s.subrange(pos, pos + enc_img_opts(p).len()) == enc_img_opts(p),
    ensures
        sp_img_opts(s, pos) == Some(
            ((p.clip_skip, p.seed, p.hires, p.post_process), pos + enc_img_opts(p).len()),
        ),
{
    reveal_strlit(",\"clip_skip\":");
    reveal_strlit(",\"seed\":");
    reveal_strlit(",\"hires\":");
    reveal_strlit(",\"post_process\":");
    reveal_strlit("}");
    let l1 = ",\"clip_skip\":"@;
    let v1 = enc_opt_u8(p.clip_skip);
    let l2 = ",\"seed\":"@;
    let v2 = enc_opt_i64(p.seed);
    let l3 = ",\"hires\":"@;
    let v3 = enc_opt_hires(p.hires);
    let l4 = ",\"post_process\":"@;
    let v4 = enc_opt_post(p.post_process);
    let l5 = "}"@;
    lemma_peel(s, pos, l1, v1 + (l2 + (v2 + (l3 + (v3 + (l4 + (v4 + l5)))))));
    lemma_sp_lit_rt(s, pos, l1);
    let c1 = pos + l1.len();
    lemma_peel(s, c1, v1, l2 + (v2 + (l3 + (v3 + (l4 + (v4 + l5))))));
    assert(s[c1 + v1.len()] == l2[0]);
    lemma_sp_opt_u8_rt(p.clip_skip, s, c1);
    let c2 = c1 + v1.len();
    lemma_peel(s, c2, l2, v2 + (l3 + (v3 + (l4 + (v4 + l5)))));
    lemma_sp_lit_rt(s, c2, l2);
    let c3 = c2 + l2.len();
    lemma_peel(s, c3, v2, l3 + (v3 + (l4 + (v4 + l5))));
    assert(s[c3 + v2.len()] == l3[0]);
    lemma_sp_opt_i64_rt(p.seed, s, c3);
    let c4 = c3 + v2.len();
    lemma_peel(s, c4, l3, v3 + (l4 + (v4 + l5)));
    lemma_sp_lit_rt(s, c4, l3);
    let c5 = c4 + l3.len();
    lemma_peel(s, c5, v3, l4 + (v4 + l5));
    lemma_sp_opt_hires_rt(p.hires, s, c5);
    let c6 = c5 + v3.len();
    lemma_peel(s, c6, l4, v4 + l5);
    lemma_sp_lit_rt(s, c6, l4);
    let c7 = c6 + l4.len();
    lemma_peel(s, c7, v4, l5);
    lemma_sp_opt_post_rt(p.post_process, s, c7);
    let c8 = c7 + v4.len();
    lemma_sp_lit_rt(s, c8, l5);
}

/// A record the encoder wrote is read back exactly.
pub proof fn lemma_sp_img_rt(p: ParamsView, s: Seq<char>, pos: int)
    requires
        0 <= pos,
        pos + enc_img(p).len() <= s.len(),
        s.subrange(pos, pos + enc_img(p).len()) == enc_img(p),
    ensures
        sp_img(s, pos) == Some((p, pos + enc_img(p).len())),
{
    reveal_strlit(",\"clip_skip\":");
    let texts = enc_img_texts(p);
    let nums = enc_img_nums(p);
    let opts = enc_img_opts(p);
    lemma_peel(s, pos, texts, nums + opts);
    lemma_sp_img_texts_rt(p, s, pos);
    let c1 = pos + texts.len();
    lemma_peel(s, c1, nums, opts);
    assert(s[c1 + nums.len()] == opts[0]);
    assert(opts[0] == ',') by {
        assert(opts[0] == ",\"clip_skip\":"@[0]);
    }
    lemma_sp_img_nums_rt(p, s, c1);
    let c2 = c1 + nums.len();
    lemma_sp_img_opts_rt(p, s, c2);
    assert(ParamsView {
        positive: p.positive,
        negative: p.negative,
        model: p.model,
        sampler: p.sampler,
        steps: p.steps,
        width: p.width,
        height: p.height,
        cfg_milli: p.cfg_milli,
        clip_skip: p.clip_skip,
        seed: p.seed,
        hires: p.hires,
        post_process: p.post_process,
    } == p);
}

/// A record object is never empty text and opens with a brace.
proof fn lemma_enc_img_first(p: ParamsView)
    ensures
        enc_img(p).len() > 0,
        enc_img(p)[0] == '{',
{
    reveal_strlit("{\"positive\":");
    assert(enc_img(p)[0] == enc_img_texts(p)[0]);
    assert(enc_img_texts(p)[0] == "{\"positive\":"@[0]);
}

/// A non-empty record list the encoder wrote, followed by the closing
/// bracket, is read back exactly.
#[verifier::rlimit(60)]
#[verifier::spinoff_prover]
proof fn lemma_sp_images_tail_rt(images: Seq<ParamsView>, s: Seq<char>, pos: int)
    requires
        images.len() > 0,
        0 <= pos,
        pos + enc_imgs(images).len() + 1 <= s.len(),
        s.subrange(pos, pos + enc_imgs(images).len()) == enc_imgs(images),
        s[pos + enc_imgs(images).len()] == ']',
    ensures
        sp_images_tail(s, pos) == Some((images, pos + enc_imgs(images).len() + 1)),
    decreases images.len(),
{
    reveal_strlit(",");
    let first = enc_img(images[0]);
    lemma_enc_img_first(images[0]);
    if images.len() == 1 {
        assert(enc_imgs(images) == first);
        lemma_sp_img_rt(images[0], s, pos);
        let e = pos + first.len();
        assert(s[e] == ']');
        assert(seq![images[0]] =~= images);
    } else {
        let rest = enc_imgs(images.skip(1));
        lemma_peel(s, pos, first, ","@ + rest);
        lemma_sp_img_rt(images[0], s, pos);
        let e = pos + first.len();
        assert(s[e] == (","@ + rest)[0]);
        assert(s[e] == ',');
        lemma_peel(s, e, ","@, rest);
        assert(images.skip(1).len() > 0);
        lemma_sp_images_tail_rt(images.skip(1), s, e + 1);
        assert(seq![images[0]] + images.skip(1) =~= images);
    }
}

/// A record list the encoder wrote, followed by the closing bracket, is read
/// back exactly, the empty list included.
proof fn lemma_sp_images_rt(images: Seq<ParamsView>, s: Seq<char>, pos: int)
    requires
        0 <= pos,
        pos + enc_imgs(images).len() + 1 <= s.len(),
        s.subrange(pos, pos + enc_imgs(images).len()) == enc_imgs(images),
        s[pos + enc_imgs(images).len()] == ']',
    ensures
        sp_images(s, pos) == Some((images, pos + enc_imgs(images).len() + 1)),
{
    if images.len() == 0 {
        assert(enc_imgs(images).len() == 0);
        assert(s[pos] == ']');
        assert(Seq::<ParamsView>::empty() =~= images);
    } else {
        let v2 = enc_imgs(images);
        lemma_enc_img_first(images[0]);
        assert(s[pos] == v2[0]) by {
            assert(s.subrange(pos, pos + v2.len())[0] == v2[0]);
        }
        assert(v2[0] == enc_img(images[0])[0]) by {
            if images.len() == 1 {
            } else {
                assert(v2 == enc_img(images[0]) + (","@ + enc_imgs(images.skip(1))));
            }
        }
        assert(s[pos] == '{');
        lemma_sp_images_tail_rt(images, s, pos);
    }
}

/// A log text is read back exactly from any stretch that spells it whole.
proof fn lemma_sp_log_at(template: Seq<char>, images: Seq<ParamsView>, s: Seq<char>)
    requires
        s.len() == enc_log(template, images).len(),
        s.subrange(0, s.len() as int) == enc_log(template, images),
    ensures
        sp_log(s) == Some((template, images)),
{
    reveal_strlit("{\"template\":");
    reveal_strlit(",\"images\":[");
    reveal_strlit("]}");
    reveal_strlit("}");
    reveal_strlit("]");
    let l1 = "{\"template\":"@;
    let v1 = enc_str(template);
    let l2 = ",\"images\":["@;
    let v2 = enc_imgs(images);
    let l3 = "]}"@;
    assert(enc_log(template, images) == l1 + (v1 + (l2 + (v2 + l3))));
    lemma_peel(s, 0, l1, v1 + (l2 + (v2 + l3)));
    lemma_sp_lit_rt(s, 0, l1);
    let c1 = l1.len() as int;
    lemma_peel(s, c1, v1, l2 + (v2 + l3));
    lemma_sp_str_rt(template, s, c1);
    let c2 = c1 + v1.len();
    lemma_peel(s, c2, l2, v2 + l3);
    lemma_sp_lit_rt(s, c2, l2);
    let c3 = c2 + l2.len();
    lemma_peel(s, c3, v2, l3);
    let c4 = c3 + v2.len();
    assert(s[c4] == l3[0]);
    assert(l3[0] == ']');
    lemma_sp_images_rt(images, s, c3);
    let c5 = c4 + 1;
    // What remains after the bracket is the single closing brace.
    assert(s[c5] == l3[1]) by {
        assert(s.subrange(c4, c4 + l3.len())[1] == l3[1]);
    }
    assert(s.subrange(c5, c5 + 1) =~= "}"@);
    lemma_sp_lit_rt(s, c5, "}"@);
    assert(c5 + 1 == s.len());
}

/// A whole log the encoder wrote is read back exactly: the round trip law.
/// Writing a log and reading the text back yields the same template name and
/// the same sequence of parameter records.
pub proof fn lemma_log_roundtrip(template: Seq<char>, images: Seq<ParamsView>)
    ensures
        sp_log(enc_log(template, images)) == Some((template, images)),
{
    let s = enc_log(template, images);
    assert(s.subrange(0, s.len() as int) =~= s);
    lemma_sp_log_at(template, images, s);
}

// ------------------------------------------------------------ the encoder
/// Appends the escaped form of `s`.
fn append_escaped(out: &mut String, s: &str)
    ensures
        final(out)@ == old(out)@ + esc_str(s@),
{
    let n = s.unicode_len();
    let mut i: usize = 0;
    proof {
        assert(esc_str(s@.subrange(0, 0)) =~= Seq::<char>::empty());
        assert(out@ =~= out@ + esc_str(s@.subrange(0, 0)));
    }
    while i < n
        invariant
            n == s@.len(),
            i <= n,
            out@ == old(out)@ + esc_str(s@.subrange(0, i as int)),
        decreases n - i,
    {
        let c = s.get_char(i);
        if c == '"' {
            out.append("\\\"");
            proof {
                reveal_strlit("\\\"");
            }
        } else if c == '\\' {
            out.append("\\\\");
            proof {
                reveal_strlit("\\\\");
            }
        } else {
            push_char(out, c);
        }
        proof {
            lemma_esc_str_concat(s@.subrange(0, i as int), seq![c]);
            assert(s@.subrange(0, i + 1) =~= s@.subrange(0, i as int) + seq![c]);
            assert(esc_str(seq![c]) =~= esc_char(c)) by {
                assert(seq![c].skip(1) =~= Seq::<char>::empty());
                assert(esc_str(Seq::<char>::empty()) == Seq::<char>::empty());
                assert(seq![c][0] == c);
            }
            assert(out@ =~= old(out)@ + esc_str(s@.subrange(0, i + 1)));
        }
        i = i + 1;
    }
    proof {
        assert(s@.subrange(0, n as int) =~= s@);
    }
}

/// Appends a quoted, escaped string.
fn append_enc_str(out: &mut String, s: &str)
    ensures
        final(out)@ == old(out)@ + enc_str(s@),
{
    push_char(out, '"');
    append_escaped(out, s);
    push_char(out, '"');
    proof {
        assert(final(out)@ =~= old(out)@ + enc_str(s@));
    }
}

/// Appends a signed number.
fn append_enc_i64(out: &mut String, v: i64)
    ensures
        final(out)@ == old(out)@ + enc_i64(v),
{
    if v < 0 {
        push_char(out, '-');
        let m: u64 = if v == i64::MIN {
            0x8000_0000_0000_0000u64
        } else {
            (-v) as u64
        };
        append_dec_u64(out, m);
        proof {
            assert(m == (0 - v as int) as u64);
            assert(final(out)@ =~= old(out)@ + enc_i64(v));
        }
    } else {
        append_dec_u64(out, v as u64);
    }
}

/// Appends `null` or an unsigned byte.
fn append_opt_u8(out: &mut String, o: &Option<u8>)
    ensures
        final(out)@ == old(out)@ + enc_opt_u8(*o),
{
    match o {
        Option::None => out.append("null"),
        Option::Some(v) => append_dec_u64(out, *v as u64),
    }
}

/// Appends `null` or a signed number.
fn append_opt_i64(out: &mut String, o: &Option<i64>)
    ensures
        final(out)@ == old(out)@ + enc_opt_i64(*o),
{
    match o {
        Option::None => out.append("null"),
        Option::Some(v) => append_enc_i64(out, *v),
    }
}

/// Appends a hi-res object.
fn append_hires(out: &mut String, h: &crate::params::HiResSettings)
    ensures
        final(out)@ == old(out)@ + enc_hires(h@),
{
    out.append("{\"upscaler\":");
    append_enc_str(out, h.upscaler.as_str());
    out.append(",\"upscale_by_milli\":");
    append_dec_u64(out, h.upscale_by_milli as u64);
    out.append(",\"denoising_milli\":");
    append_dec_u64(out, h.denoising_milli as u64);
    out.append(",\"steps\":");
    append_dec_u64(out, h.steps as u64);
    out.append("}");
    proof {
        assert(final(out)@ =~= old(out)@ + enc_hires(h@));
    }
}

/// Appends `null` or a hi-res object.
fn append_opt_hires(out: &mut String, o: &Option<crate::params::HiResSettings>)
    ensures
        final(out)@ == old(out)@ + enc_opt_hires(crate::params::hires_view(*o)),
{
    match o {
        Option::None => out.append("null"),
        Option::Some(h) => append_hires(out, h),
    }
}

/// Appends a post-process object.
fn append_post(out: &mut String, p: &crate::params::PostProcesses)
    ensures
        final(out)@ == old(out)@ + enc_post(p@),
{
    match p {
        crate::params::PostProcesses::Resize { scale_by_milli } => {
            out.append("{\"resize\":{\"scale_by_milli\":");
            append_dec_u64(out, *scale_by_milli as u64);
            out.append("}}");
            proof {
                assert(final(out)@ =~= old(out)@ + enc_post(p@));
            }
        },
    }
}

/// Appends `null` or a post-process object.
fn append_opt_post(out: &mut String, o: &Option<crate::params::PostProcesses>)
    ensures
        final(out)@ == old(out)@ + enc_opt_post(crate::params::post_view(*o)),
{
    match o {
        Option::None => out.append("null"),
        Option::Some(p) => append_post(out, p),
    }
}

/// Appends one record object.
#[verifier::rlimit(100)]
#[verifier::spinoff_prover]
fn append_img(out: &mut String, p: &crate::params::PromptData)
    ensures
        final(out)@ == old(out)@ + enc_img(p@),
{
    out.append("{\"positive\":");
    append_enc_str(out, p.positive.as_str());
    out.append(",\"negative\":");
    append_enc_str(out, p.negative.as_str());
    out.append(",\"model\":");
    append_enc_str(out, p.model.as_str());
    out.append(",\"sampler\":");
    append_enc_str(out, p.sampler.as_str());
    proof {
        assert(out@ =~= old(out)@ + enc_img_texts(p@));
    }
    out.append(",\"steps\":");
    append_dec_u64(out, p.steps as u64);
    out.append(",\"width\":");
    append_dec_u64(out, p.width as u64);
    out.append(",\"height\":");
    append_dec_u64(out, p.height as u64);
    out.append(",\"cfg_milli\":");
    append_dec_u64(out, p.cfg_milli as u64);
    proof {
        assert(out@ =~= old(out)@ + (enc_img_texts(p@) + enc_img_nums(p@)));
    }
    out.append(",\"clip_skip\":");
    append_opt_u8(out, &p.clip_skip);
    out.append(",\"seed\":");
    append_opt_i64(out, &p.seed);
    out.append(",\"hires\":");
    append_opt_hires(out, &p.hires);
    out.append(",\"post_process\":");
    append_opt_post(out, &p.post_process);
    out.append("}");
    proof {
        assert(final(out)@ =~= old(out)@ + enc_img(p@));
    }
}

/// Appends the records from index `k` on, comma-separated.
#[verifier::rlimit(60)]
#[verifier::spinoff_prover]
fn append_imgs_from(out: &mut String, images: &Vec<crate::params::PromptData>, k: usize)
    requires
        k <= images@.len(),
    ensures
        final(out)@ == old(out)@ + enc_imgs(
            images@.map_values(|p: crate::params::PromptData| p@).skip(k as int),
        ),
    decreases images@.len() - k,
{
    let ghost views = images@.map_values(|p: crate::params::PromptData| p@);
    if k < images.len() {
        append_img(out, &images[k]);
        proof {
            assert(views.skip(k as int)[0] == views[k as int]);
        }
        if k + 1 < images.len() {
            out.append(",");
            append_imgs_from(out, images, k + 1);
            proof {
                assert(views.skip(k as int).skip(1) =~= views.skip(k + 1));
                assert(final(out)@ =~= old(out)@ + enc_imgs(views.skip(k as int)));
            }
        } else {
            proof {
                assert(views.skip(k as int).len() == 1);
                assert(final(out)@ =~= old(out)@ + enc_imgs(views.skip(k as int)));
            }
        }
    } else {
        proof {
            assert(views.skip(k as int).len() == 0);
            assert(final(out)@ =~= old(out)@ + enc_imgs(views.skip(k as int)));
        }
    }
}

/// Renders a whole log as its canonical file text. Every write of a log —
/// initial plan, per-image seed update, resume, reroll — goes through this.
pub fn encode_log(log: &crate::log::BatchLog) -> (r: String)
    ensures
        r@ == enc_log(log@.template, log@.images),
{
    let mut out = String::new();
    out.append("{\"template\":");
    append_enc_str(&mut out, log.template.as_str());
    out.append(",\"images\":[");
    append_imgs_from(&mut out, &log.images, 0);
    out.append("]}");
    proof {
        assert(log@.images.skip(0) =~= log@.images);
        assert(out@ =~= enc_log(log@.template, log@.images));
    }
    out
}

// ------------------------------------------------------------- the parser
/// The characters of a text, for the parser to index.
pub fn str_to_chars(s: &str) -> (r: Vec<char>)
    ensures
        r@ == s@,
{
    let n = s.unicode_len();
    let mut r: Vec<char> = Vec::new();
    let mut i: usize = 0;
    while i < n
        invariant
            n == s@.len(),
            i <= n,
            r@ == s@.subrange(0, i as int),
        decreases n - i,
    {
        r.push(s.get_char(i));
        proof {
            assert(r@ =~= s@.subrange(0, i + 1));
        }
        i = i + 1;
    }
    proof {
        assert(s@.subrange(0, n as int) =~= s@);
    }
    r
}

/// Reads the exact text `lit` at `pos`.
fn p_lit(s: &Vec<char>, pos: usize, lit: &str) -> (r: Option<usize>)
    requires
        pos <= s@.len(),
    ensures
        r matches Some(e) ==> sp_lit(s@, pos as int, lit@) == Some(e as int) && pos <= e
            <= s@.len(),
        r is None ==> sp_lit(s@, pos as int, lit@) is None,
{
    let n = lit.unicode_len();
    if n > s.len() - pos {
        return None;
    }
    let sl = s.len();
    let mut j: usize = 0;
    while j < n
        invariant
            n == lit@.len(),
            sl == s@.len(),
            pos + n <= sl,
            j <= n,
            forall|k: int| 0 <= k < j ==> s@[pos + k] == lit@[k],
        decreases n - j,
    {
        if s[pos + j] != lit.get_char(j) {
            proof {
                assert(s@.subrange(pos as int, pos + n) != lit@) by {
                    assert(s@.subrange(pos as int, pos + n)[j as int] == s@[pos + j]);
                }
            }
            return None;
        }
        j = j + 1;
    }
    proof {
        assert(s@.subrange(pos as int, pos + n) =~= lit@);
    }
    Some(pos + n)
}

/// The parsed text so far, prepended to whatever the rest parses to.
pub open spec fn prepend_res(a: Seq<char>, r: Option<(Seq<char>, int)>) -> Option<
    (Seq<char>, int),
> {
    match r {
        Option::None => None,
        Option::Some((t, e)) => Some((a + t, e)),
    }
}

/// Reads a string body after its opening quote, undoing escapes.
fn p_str_body(s: &Vec<char>, pos: usize) -> (r: Option<(String, usize)>)
    requires
        pos <= s@.len(),
    ensures
        r matches Some((t, e)) ==> sp_str_body(s@, pos as int) == Some((t@, e as int)) && pos <= e
            <= s@.len(),
        r is None ==> sp_str_body(s@, pos as int) is None,
{
    let mut cur: usize = pos;
    let mut acc = String::new();
    proof {
        let r0 = sp_str_body(s@, pos as int);
        if r0 is Some {
            let pair = r0->0;
            assert(acc@ + pair.0 =~= pair.0);
        }
    }
    loop
        invariant
            pos <= cur <= s@.len(),
            sp_str_body(s@, pos as int) == prepend_res(acc@, sp_str_body(s@, cur as int)),
        decreases s@.len() - cur,
    {
        if cur >= s.len() {
            return None;
        }
        let c = s[cur];
        if c == '"' {
            proof {
                assert(acc@ + Seq::<char>::empty() =~= acc@);
            }
            return Some((acc, cur + 1));
        }
        if c == '\\' {
            if cur + 1 >= s.len() {
                return None;
            }
            let c2 = s[cur + 1];
            if c2 == '"' || c2 == '\\' {
                proof {
                    let inner = sp_str_body(s@, cur + 2);
                    if inner is Some {
                        let (t, e) = inner->0;
                        assert(acc@ + (seq![c2] + t) =~= acc@.push(c2) + t);
                    }
                }
                push_char(&mut acc, c2);
                cur = cur + 2;
            } else {
                return None;
            }
        } else {
            proof {
                let inner = sp_str_body(s@, cur + 1);
                if inner is Some {
                    let (t, e) = inner->0;
                    assert(acc@ + (seq![c] + t) =~= acc@.push(c) + t);
                }
            }
            push_char(&mut acc, c);
            cur = cur + 1;
        }
    }
}

/// Reads a quoted string.
fn p_str(s: &Vec<char>, pos: usize) -> (r: Option<(String, usize)>)
    requires
        pos <= s@.len(),
    ensures
        r matches Some((t, e)) ==> sp_str(s@, pos as int) == Some((t@, e as int)) && pos <= e
            <= s@.len(),
        r is None ==> sp_str(s@, pos as int) is None,
{
    if pos < s.len() && s[pos] == '"' {
        p_str_body(s, pos + 1)
    } else {
        None
    }
}

/// Reads an unsigned number.
fn p_u64(s: &Vec<char>, pos: usize) -> (r: Option<(u64, usize)>)
    requires
        pos <= s@.len(),
    ensures
        r matches Some((v, e)) ==> sp_u64(s@, pos as int) == Some((v, e as int)) && pos <= e
            <= s@.len(),
        r is None ==> sp_u64(s@, pos as int) is None,
{
    if pos >= s.len() || !is_digit_exec(s[pos]) {
        return None;
    }
    let mut cur: usize = pos;
    let mut acc: u64 = 0;
    loop
        invariant
            pos < s@.len(),
            is_digit(s@[pos as int]),
            pos <= cur <= s@.len(),
            sp_digits(s@, pos as int, 0) == sp_digits(s@, cur as int, acc),
        decreases s@.len() - cur,
    {
        if cur >= s.len() || !is_digit_exec(s[cur]) {
            return Some((acc, cur));
        }
        let c = s[cur];
        let d: u64 = (c as u32 as u64) - ('0' as u32 as u64);
        proof {
            assert(d == digit_val(c));
        }
        if acc > (u64::MAX - d) / 10 {
            proof {
                assert(acc as int * 10 + digit_val(c) > u64::MAX);
            }
            return None;
        }
        proof {
            assert(acc as int * 10 + digit_val(c) <= u64::MAX);
        }
        acc = acc * 10 + d;
        cur = cur + 1;
    }
}

/// Reads a signed number.
fn p_i64(s: &Vec<char>, pos: usize) -> (r: Option<(i64, usize)>)
    requires
        pos <= s@.len(),
    ensures
        r matches Some((v, e)) ==> sp_i64(s@, pos as int) == Some((v, e as int)) && pos <= e
            <= s@.len(),
        r is None ==> sp_i64(s@, pos as int) is None,
{
    if pos < s.len() && s[pos] == '-' {
        match p_u64(s, pos + 1) {
            Option::None => None,
            Option::Some((m, e)) => {
                if m <= 0x8000_0000_0000_0000u64 {
                    let v: i64 = if m == 0x8000_0000_0000_0000u64 {
                        i64::MIN
                    } else {
                        -(m as i64)
                    };
                    proof {
                        assert(v == (0 - m as int) as i64);
                    }
                    Some((v, e))
                } else {
                    None
                }
            },
        }
    } else {
        match p_u64(s, pos) {
            Option::None => None,
            Option::Some((m, e)) => {
                if m <= i64::MAX as u64 {
                    Some((m as i64, e))
                } else {
                    None
                }
            },
        }
    }
}

/// Reads an unsigned number that must fit 32 bits.
fn p_u32(s: &Vec<char>, pos: usize) -> (r: Option<(u32, usize)>)
    requires
        pos <= s@.len(),
    ensures
        r matches Some((v, e)) ==> sp_u32(s@, pos as int) == Some((v, e as int)) && pos <= e
            <= s@.len(),
        r is None ==> sp_u32(s@, pos as int) is None,
{
    match p_u64(s, pos) {
        Option::None => None,
        Option::Some((m, e)) => if m <= u32::MAX as u64 {
            Some((m as u32, e))
        } else {
            None
        },
    }
}

/// Reads an unsigned number that must fit 8 bits.
fn p_u8(s: &Vec<char>, pos: usize) -> (r: Option<(u8, usize)>)
    requires
        pos <= s@.len(),
    ensures
        r matches Some((v, e)) ==> sp_u8(s@, pos as int) == Some((v, e as int)) && pos <= e
            <= s@.len(),
        r is None ==> sp_u8(s@, pos as int) is None,
{
    match p_u64(s, pos) {
        Option::None => None,
        Option::Some((m, e)) => if m <= u8::MAX as u64 {
            Some((m as u8, e))
        } else {
            None
        },
    }
}

/// Reads `null` or an unsigned byte.
fn p_opt_u8(s: &Vec<char>, pos: usize) -> (r: Option<(Option<u8>, usize)>)
    requires
        pos <= s@.len(),
    ensures
        r matches Some((v, e)) ==> sp_opt_u8(s@, pos as int) == Some((v, e as int)) && pos <= e
            <= s@.len(),
        r is None ==> sp_opt_u8(s@, pos as int) is None,
{
    match p_lit(s, pos, "null") {
        Option::Some(e) => Some((None, e)),
        Option::None => match p_u8(s, pos) {
            Option::None => None,
            Option::Some((v, e)) => Some((Some(v), e)),
        },
    }
}

/// Reads `null` or a signed number.
fn p_opt_i64(s: &Vec<char>, pos: usize) -> (r: Option<(Option<i64>, usize)>)
    requires
        pos <= s@.len(),
    ensures
        r matches Some((v, e)) ==> sp_opt_i64(s@, pos as int) == Some((v, e as int)) && pos <= e
            <= s@.len(),
        r is None ==> sp_opt_i64(s@, pos as int) is None,
{
    match p_lit(s, pos, "null") {
        Option::Some(e) => Some((None, e)),
        Option::None => match p_i64(s, pos) {
            Option::None => None,
            Option::Some((v, e)) => Some((Some(v), e)),
        },
    }
}

/// Reads a hi-res object.
fn p_hires(s: &Vec<char>, pos: usize) -> (r: Option<(crate::params::HiResSettings, usize)>)
    requires
        pos <= s@.len(),
    ensures
        r matches Some((h, e)) ==> sp_hires(s@, pos as int) == Some((h@, e as int)) && pos <= e
            <= s@.len(),
        r is None ==> sp_hires(s@, pos as int) is None,
{
    let p1 = match p_lit(s, pos, "{\"upscaler\":") {
        Option::None => {
            return None;
        },
        Option::Some(e) => e,
    };
    let (upscaler, p2) = match p_str(s, p1) {
        Option::None => {
            return None;
        },
        Option::Some(v) => v,
    };
    let p3 = match p_lit(s, p2, ",\"upscale_by_milli\":") {
        Option::None => {
            return None;
        },
        Option::Some(e) => e,
    };
    let (upscale_by_milli, p4) = match p_u32(s, p3) {
        Option::None => {
            return None;
        },
        Option::Some(v) => v,
    };
    let p5 = match p_lit(s, p4, ",\"denoising_milli\":") {
        Option::None => {
            return None;
        },
        Option::Some(e) => e,
    };
    let (denoising_milli, p6) = match p_u32(s, p5) {
        Option::None => {
            return None;
        },
        Option::Some(v) => v,
    };
    let p7 = match p_lit(s, p6, ",\"steps\":") {
        Option::None => {
            return None;
        },
        Option::Some(e) => e,
    };
    let (steps, p8) = match p_u8(s, p7) {
        Option::None => {
            return None;
        },
        Option::Some(v) => v,
    };
    let p9 = match p_lit(s, p8, "}") {
        Option::None => {
            return None;
        },
        Option::Some(e) => e,
    };
    let h = crate::params::HiResSettings { upscaler, upscale_by_milli, denoising_milli, steps };
    Some((h, p9))
}

/// Reads a post-process object.
fn p_post(s: &Vec<char>, pos: usize) -> (r: Option<(crate::params::PostProcesses, usize)>)
    requires
        pos <= s@.len(),
    ensures
        r matches Some((p, e)) ==> sp_post(s@, pos as int) == Some((p@, e as int)) && pos <= e
            <= s@.len(),
        r is None ==> sp_post(s@, pos as int) is None,
{
    let p1 = match p_lit(s, pos, "{\"resize\":{\"scale_by_milli\":") {
        Option::None => {
            return None;
        },
        Option::Some(e) => e,
    };
    let (scale_by_milli, p2) = match p_u32(s, p1) {
        Option::None => {
            return None;
        },
        Option::Some(v) => v,
    };
    let p3 = match p_lit(s, p2, "}}") {
        Option::None => {
            return None;
        },
        Option::Some(e) => e,
    };
    Some((crate::params::PostProcesses::Resize { scale_by_milli }, p3))
}

/// Reads `null` or a hi-res object.
fn p_opt_hires(s: &Vec<char>, pos: usize) -> (r: Option<
    (Option<crate::params::HiResSettings>, usize),
>)
    requires
        pos <= s@.len(),
    ensures
        r matches Some((h, e)) ==> sp_opt_hires(s@, pos as int) == Some(
            (crate::params::hires_view(h), e as int),
        ) && pos <= e <= s@.len(),
        r is None ==> sp_opt_hires(s@, pos as int) is None,
{
    match p_lit(s, pos, "null") {
        Option::Some(e) => Some((None, e)),
        Option::None => match p_hires(s, pos) {
            Option::None => None,
            Option::Some((h, e)) => Some((Some(h), e)),
        },
    }
}

/// Reads `null` or a post-process object.
fn p_opt_post(s: &Vec<char>, pos: usize) -> (r: Option<
    (Option<crate::params::PostProcesses>, usize),
>)
    requires
        pos <= s@.len(),
    ensures
        r matches Some((p, e)) ==> sp_opt_post(s@, pos as int) == Some(
            (crate::params::post_view(p), e as int),
        ) && pos <= e <= s@.len(),
        r is None ==> sp_opt_post(s@, pos as int) is None,
{
    match p_lit(s, pos, "null") {
        Option::Some(e) => Some((None, e)),
        Option::None => match p_post(s, pos) {
            Option::None => None,
            Option::Some((p, e)) => Some((Some(p), e)),
        },
    }
}

/// Reads one record object.
fn p_img(s: &Vec<char>, pos: usize) -> (r: Option<(crate::params::PromptData, usize)>)
    requires
        pos <= s@.len(),
    ensures
        r matches Some((p, e)) ==> sp_img(s@, pos as int) == Some((p@, e as int)) && pos <= e
            <= s@.len(),
        r is None ==> sp_img(s@, pos as int) is None,
{
    let p1 = match p_lit(s, pos, "{\"positive\":") {
        Option::None => {
            return None;
        },
        Option::Some(e) => e,
    };
    let (positive, p2) = match p_str(s, p1) {
        Option::None => {
            return None;
        },
        Option::Some(v) => v,
    };
    let p3 = match p_lit(s, p2, ",\"negative\":") {
        Option::None => {
            return None;
        },
        Option::Some(e) => e,
    };
    let (negative, p4) = match p_str(s, p3) {
        Option::None => {
            return None;
        },
        Option::Some(v) => v,
    };
    let p5 = match p_lit(s, p4, ",\"model\":") {
        Option::None => {
            return None;
        },
        Option::Some(e) => e,
    };
    let (model, p6) = match p_str(s, p5) {
        Option::None => {
            return None;
        },
        Option::Some(v) => v,
    };
    let p7 = match p_lit(s, p6, ",\"sampler\":") {
        Option::None => {
            return None;
        },
        Option::Some(e) => e,
    };
    let (sampler, p8) = match p_str(s, p7) {
        Option::None => {
            return None;
        },
        Option::Some(v) => v,
    };
    let p9 = match p_lit(s, p8, ",\"steps\":") {
        Option::None => {
            return None;
        },
        Option::Some(e) => e,
    };
    let (steps, p10) = match p_u32(s, p9) {
        Option::None => {
            return None;
        },
        Option::Some(v) => v,
    };
    let p11 = match p_lit(s, p10, ",\"width\":") {
        Option::None => {
            return None;
        },
        Option::Some(e) => e,
    };
    let (width, p12) = match p_u32(s, p11) {
        Option::None => {
            return None;
        },
        Option::Some(v) => v,
    };
    let p13 = match p_lit(s, p12, ",\"height\":") {
        Option::None => {
            return None;
        },
        Option::Some(e) => e,
    };
    let (height, p14) = match p_u32(s, p13) {
        Option::None => {
            return None;
        },
        Option::Some(v) => v,
    };
    let p15 = match p_lit(s, p14, ",\"cfg_milli\":") {
        Option::None => {
            return None;
        },
        Option::Some(e) => e,
    };
    let (cfg_milli, p16) = match p_u32(s, p15) {
        Option::None => {
            return None;
        },
        Option::Some(v) => v,
    };
    let p17 = match p_lit(s, p16, ",\"clip_skip\":") {
        Option::None => {
            return None;
        },
        Option::Some(e) => e,
    };
    let (clip_skip, p18) = match p_opt_u8(s, p17) {
        Option::None => {
            return None;
        },
        Option::Some(v) => v,
    };
    let p19 = match p_lit(s, p18, ",\"seed\":") {
        Option::None => {
            return None;
        },
        Option::Some(e) => e,
    };
    let (seed, p20) = match p_opt_i64(s, p19) {
        Option::None => {
            return None;
        },
        Option::Some(v) => v,
    };
    let p21 = match p_lit(s, p20, ",\"hires\":") {
        Option::None => {
            return None;
        },
        Option::Some(e) => e,
    };
    let (hires, p22) = match p_opt_hires(s, p21) {
        Option::None => {
            return None;
        },
        Option::Some(v) => v,
    };
    let p23 = match p_lit(s, p22, ",\"post_process\":") {
        Option::None => {
            return None;
        },
        Option::Some(e) => e,
    };
    let (post_process, p24) = match p_opt_post(s, p23) {
        Option::None => {
            return None;
        },
        Option::Some(v) => v,
    };
    let p25 = match p_lit(s, p24, "}") {
        Option::None => {
            return None;
        },
        Option::Some(e) => e,
    };
    let out = crate::params::PromptData {
        positive,
        negative,
        model,
        sampler,
        steps,
        width,
        height,
        cfg_milli,
        clip_skip,
        seed,
        hires,
        post_process,
    };
    Some((out, p25))
}

/// Reads records separated by commas, up to the closing bracket.
fn p_images_tail(s: &Vec<char>, pos: usize) -> (r: Option<
    (Vec<crate::params::PromptData>, usize),
>)
    requires
        pos <= s@.len(),
    ensures
        r matches Some((v, e)) ==> sp_images_tail(s@, pos as int) == Some(
            (v@.map_values(|p: crate::params::PromptData| p@), e as int),
        ) && pos <= e <= s@.len(),
        r is None ==> sp_images_tail(s@, pos as int) is None,
    decreases s@.len() - pos,
{
    let (v, e) = match p_img(s, pos) {
        Option::None => {
            return None;
        },
        Option::Some(x) => x,
    };
    if pos < e && e < s.len() {
        if s[e] == ',' {
            match p_images_tail(s, e + 1) {
                Option::None => None,
                Option::Some((mut rest, e2)) => {
                    let ghost rest_views = rest@.map_values(
                        |p: crate::params::PromptData| p@,
                    );
                    rest.insert(0, v);
                    proof {
                        assert(rest@.map_values(|p: crate::params::PromptData| p@) =~= seq![v@]
                            + rest_views);
                    }
                    Some((rest, e2))
                },
            }
        } else if s[e] == ']' {
            let mut out: Vec<crate::params::PromptData> = Vec::new();
            out.push(v);
            proof {
                assert(out@.map_values(|p: crate::params::PromptData| p@) =~= seq![v@]);
            }
            Some((out, e + 1))
        } else {
            None
        }
    } else {
        None
    }
}

/// Reads the whole record array after its opening bracket.
fn p_images(s: &Vec<char>, pos: usize) -> (r: Option<(Vec<crate::params::PromptData>, usize)>)
    requires
        pos <= s@.len(),
    ensures
        r matches Some((v, e)) ==> sp_images(s@, pos as int) == Some(
            (v@.map_values(|p: crate::params::PromptData| p@), e as int),
        ) && pos <= e <= s@.len(),
        r is None ==> sp_images(s@, pos as int) is None,
{
    if pos < s.len() && s[pos] == ']' {
        let out: Vec<crate::params::PromptData> = Vec::new();
        proof {
            assert(out@.map_values(|p: crate::params::PromptData| p@) =~= Seq::<
                crate::params::ParamsView,
            >::empty());
        }
        Some((out, pos + 1))
    } else {
        p_images_tail(s, pos)
    }
}

/// Reads a whole log file text: the template name and the records, exactly
/// as `encode_log` wrote them. Text that is not a canonical log is rejected.
pub fn parse_log(s: &Vec<char>) -> (r: Option<(String, Vec<crate::params::PromptData>)>)
    ensures
        r matches Some((t, imgs)) ==> sp_log(s@) == Some(
            (t@, imgs@.map_values(|p: crate::params::PromptData| p@)),
        ),
        r is None ==> sp_log(s@) is None,
{
    let p1 = match p_lit(s, 0, "{\"template\":") {
        Option::None => {
            return None;
        },
        Option::Some(e) => e,
    };
    let (template, p2) = match p_str(s, p1) {
        Option::None => {
            return None;
        },
        Option::Some(v) => v,
    };
    let p3 = match p_lit(s, p2, ",\"images\":[") {
        Option::None => {
            return None;
        },
        Option::Some(e) => e,
    };
    let (images, p4) = match p_images(s, p3) {
        Option::None => {
            return None;
        },
        Option::Some(v) => v,
    };
    let p5 = match p_lit(s, p4, "}") {
        Option::None => {
            return None;
        },
        Option::Some(e) => e,
    };
    if p5 == s.len() {
        Some((template, images))
    } else {
        None
    }
}

} // verus!
