//! Byte-level text utilities shared by the configuration parser and the
//! ACL/option parsers: whitespace tokenization, decimal number parsing,
//! and conversions between ASCII byte vectors and `String`.

use vstd::prelude::*;
use vstd::slice::slice_subrange;
use vstd::string::StringSliceAdditionalSpecFns;

verus! {

/// Horizontal whitespace inside a configuration line.
pub open spec fn is_space(b: u8) -> bool {
    b == 32 || b == 9 || b == 13
}

pub open spec fn is_digit(b: u8) -> bool {
    48 <= b && b <= 57
}

pub open spec fn all_digits(s: Seq<u8>) -> bool {
    forall|i: int| 0 <= i < s.len() ==> is_digit(#[trigger] s[i])
}

/// A non-empty run of decimal digits.
pub open spec fn is_number(s: Seq<u8>) -> bool {
    s.len() > 0 && all_digits(s)
}

/// The value of one digit byte.
pub open spec fn digit_val(b: u8) -> nat {
    if 48 <= b {
        (b - 48) as nat
    } else {
        0
    }
}

/// The value of a digit run read in base ten.
pub open spec fn digits_val(s: Seq<u8>) -> nat
    decreases s.len(),
{
    if s.len() == 0 {
        0
    } else {
        digits_val(s.drop_last()) * 10 + digit_val(s.last())
    }
}

/// Length of the leading run of non-space bytes.
pub open spec fn token_len(s: Seq<u8>) -> int
    decreases s.len(),
{
    if s.len() == 0 || is_space(s[0]) {
        0
    } else {
        1 + token_len(s.drop_first())
    }
}

/// The whitespace-separated tokens of a line, in order.
pub open spec fn spec_tokens(s: Seq<u8>) -> Seq<Seq<u8>>
    decreases s.len(),
    via spec_tokens_dec
{
    if s.len() == 0 {
        seq![]
    } else if is_space(s[0]) {
        spec_tokens(s.drop_first())
    } else {
        seq![s.take(token_len(s))] + spec_tokens(s.skip(token_len(s)))
    }
}

#[via_fn]
proof fn spec_tokens_dec(s: Seq<u8>) {
    lemma_token_len_bounds(s);
}

/// The tokens joined back together with single spaces.
pub open spec fn spec_join(ts: Seq<Seq<u8>>) -> Seq<u8>
    decreases ts.len(),
{
    if ts.len() == 0 {
        seq![]
    } else if ts.len() == 1 {
        ts[0]
    } else {
        spec_join(ts.drop_last()) + seq![32u8] + ts.last()
    }
}

pub open spec fn all_ascii(s: Seq<u8>) -> bool {
    forall|i: int| 0 <= i < s.len() ==> #[trigger] s[i] < 128
}

/// An ASCII byte sequence read as characters.
pub open spec fn ascii_view(s: Seq<u8>) -> Seq<char> {
    s.map_values(|b: u8| b as char)
}

proof fn lemma_token_len_bounds(s: Seq<u8>)
    ensures
        0 <= token_len(s) <= s.len(),
        forall|j: int| 0 <= j < token_len(s) ==> !is_space(#[trigger] s[j]),
        token_len(s) < s.len() ==> is_space(s[token_len(s)]),
        s.len() > 0 && !is_space(s[0]) ==> token_len(s) > 0,
    decreases s.len(),
{
    if s.len() == 0 || is_space(s[0]) {
    } else {
        lemma_token_len_bounds(s.drop_first());
        assert forall|j: int| 0 <= j < token_len(s) implies !is_space(#[trigger] s[j]) by {
            if j > 0 {
                assert(s.drop_first()[j - 1] == s[j]);
            }
        }
        if token_len(s) < s.len() {
            assert(s.drop_first()[token_len(s) - 1] == s[token_len(s)]);
        }
    }
}

/// `token_len` is the unique cut: all non-space before `k`, space or end at `k`.
proof fn lemma_token_len_unique(s: Seq<u8>, k: int)
    requires
        0 <= k <= s.len(),
        forall|j: int| 0 <= j < k ==> !is_space(#[trigger] s[j]),
        k < s.len() ==> is_space(s[k]),
    ensures
        token_len(s) == k,
{
    lemma_token_len_bounds(s);
    if token_len(s) < k {
        assert(!is_space(s[token_len(s)]));
    }
    if token_len(s) > k {
        assert(!is_space(s[k]));
    }
}

pub fn bytes_eq(a: &[u8], b: &[u8]) -> (r: bool)
    ensures
        r == (a@ == b@),
{
    if a.len() != b.len() {
        return false;
    }
    let mut i: usize = 0;
    while i < a.len()
        invariant
            i <= a.len(),
            a@.len() == b@.len(),
            forall|j: int| 0 <= j < i ==> a@[j] == b@[j],
        decreases a.len() - i,
    {
        if a[i] != b[i] {
            return false;
        }
        i += 1;
    }
    proof {
        assert(a@ =~= b@);
    }
    true
}

/// Whether `s` starts with the bytes of `p`.
pub fn starts_with(s: &[u8], p: &[u8]) -> (r: bool)
    ensures
        r == p@.is_prefix_of(s@),
{
    if p.len() > s.len() {
        return false;
    }
    let mut i: usize = 0;
    while i < p.len()
        invariant
            i <= p.len(),
            p@.len() <= s@.len(),
            forall|j: int| 0 <= j < i ==> s@[j] == p@[j],
        decreases p.len() - i,
    {
        if s[i] != p[i] {
            return false;
        }
        i += 1;
    }
    proof {
        assert(p@ =~= s@.take(p@.len() as int));
    }
    true
}

proof fn lemma_digits_val_take_step(s: Seq<u8>, i: int)
    requires
        0 <= i < s.len(),
    ensures
        digits_val(s.take(i + 1)) == digits_val(s.take(i)) * 10 + digit_val(s[i]),
{
    assert(s.take(i + 1).drop_last() =~= s.take(i));
    assert(s.take(i + 1).last() == s[i]);
}

proof fn lemma_digits_val_mono(s: Seq<u8>, i: int)
    requires
        0 <= i <= s.len(),
        all_digits(s),
    ensures
        digits_val(s.take(i)) <= digits_val(s),
    decreases s.len() - i,
{
    if i < s.len() {
        lemma_digits_val_take_step(s, i);
        lemma_digits_val_mono(s, i + 1);
        assert(digits_val(s.take(i)) <= digits_val(s.take(i + 1)));
        assert(s.take(s.len() as int) =~= s);
    } else {
        assert(s.take(i) =~= s);
    }
}

/// Parse a run of decimal digits. Returns `Some` exactly on non-empty
/// all-digit input whose value fits in a `u64`.
pub fn parse_u64(s: &[u8]) -> (r: Option<u64>)
    ensures
        r matches Some(n) ==> is_number(s@) && n == digits_val(s@) && digits_val(s@)
            <= u64::MAX,
        r is None ==> !is_number(s@) || digits_val(s@) > u64::MAX,
{
    if s.len() == 0 {
        return None;
    }
    let mut acc: u64 = 0;
    let mut i: usize = 0;
    while i < s.len()
        invariant
            i <= s.len(),
            forall|j: int| 0 <= j < i ==> is_digit(#[trigger] s@[j]),
            acc == digits_val(s@.take(i as int)),
        decreases s.len() - i,
    {
        let b = s[i];
        if b < 48 || b > 57 {
            return None;
        }
        let d: u64 = (b - 48) as u64;
        proof {
            lemma_digits_val_take_step(s@, i as int);
        }
        if acc > (u64::MAX - d) / 10 {
            proof {
                assert(digits_val(s@.take(i + 1)) > u64::MAX);
                if all_digits(s@) {
                    lemma_digits_val_mono(s@, i + 1);
                }
            }
            return None;
        }
        acc = acc * 10 + d;
        i += 1;
    }
    proof {
        assert(s@.take(i as int) =~= s@);
    }
    Some(acc)
}

/// Parse a decimal number that must fit in a `u32`.
pub fn parse_u32(s: &[u8]) -> (r: Option<u32>)
    ensures
        r matches Some(n) ==> is_number(s@) && n == digits_val(s@) && digits_val(s@)
            <= u32::MAX,
        r is None ==> !is_number(s@) || digits_val(s@) > u32::MAX,
{
    match parse_u64(s) {
        Some(n) => if n <= u32::MAX as u64 {
            Some(n as u32)
        } else {
            None
        },
        None => None,
    }
}

/// Parse a decimal number that must fit in a `u16`.
pub fn parse_u16(s: &[u8]) -> (r: Option<u16>)
    ensures
        r matches Some(n) ==> is_number(s@) && n == digits_val(s@) && digits_val(s@)
            <= u16::MAX,
        r is None ==> !is_number(s@) || digits_val(s@) > u16::MAX,
{
    match parse_u64(s) {
        Some(n) => if n <= u16::MAX as u64 {
            Some(n as u16)
        } else {
            None
        },
        None => None,
    }
}

/// Split a line into its whitespace-separated tokens.
pub fn split_ws(s: &[u8]) -> (r: Vec<Vec<u8>>)
    ensures
        r.deep_view() == spec_tokens(s@),
{
    let mut r: Vec<Vec<u8>> = Vec::new();
    let mut i: usize = 0;
    proof {
        assert(s@.skip(0) =~= s@);
        assert(r.deep_view() + spec_tokens(s@) =~= spec_tokens(s@));
    }
    while i < s.len()
        invariant
            i <= s.len(),
            spec_tokens(s@) == r.deep_view() + spec_tokens(s@.skip(i as int)),
        decreases s.len() - i,
    {
        if s[i] == 32 || s[i] == 9 || s[i] == 13 {
            proof {
                assert(s@.skip(i as int).drop_first() =~= s@.skip(i + 1));
            }
            i += 1;
        } else {
            let ghost rest = s@.skip(i as int);
            let mut tok: Vec<u8> = Vec::new();
            let start = i;
            while i < s.len() && !(s[i] == 32 || s[i] == 9 || s[i] == 13)
                invariant
                    start <= i <= s.len(),
                    tok@ =~= s@.subrange(start as int, i as int),
                    forall|j: int| start <= j < i ==> !is_space(#[trigger] s@[j]),
                decreases s.len() - i,
            {
                tok.push(s[i]);
                i += 1;
            }
            proof {
                assert forall|j: int| 0 <= j < i - start implies !is_space(#[trigger] rest[j]) by {
                    assert(rest[j] == s@[start + j]);
                }
                if i < s.len() {
                    assert(rest[i - start] == s@[i as int]);
                }
                lemma_token_len_unique(rest, i - start);
                assert(rest.take(token_len(rest)) =~= tok@);
                assert(rest.skip(token_len(rest)) =~= s@.skip(i as int));
                assert(spec_tokens(rest) == seq![tok@] + spec_tokens(s@.skip(i as int)));
            }
            let ghost old_r = r.deep_view();
            let ghost tok_v = tok@;
            r.push(tok);
            proof {
                assert(r.deep_view() =~~= old_r + seq![tok_v]);
                assert(old_r + seq![tok_v] + spec_tokens(s@.skip(i as int)) =~= old_r
                    + spec_tokens(rest));
            }
        }
    }
    proof {
        assert(spec_tokens(s@.skip(i as int)) =~= Seq::<Seq<u8>>::empty());
        assert(r.deep_view() =~= r.deep_view() + Seq::<Seq<u8>>::empty());
    }
    r
}

/// Join tokens with single spaces, as the configuration reader stores
/// multi-word directive arguments.
pub fn join_ws(ts: &[Vec<u8>]) -> (r: Vec<u8>)
    ensures
        r@ == spec_join(ts.deep_view()),
{
    let mut r: Vec<u8> = Vec::new();
    let mut i: usize = 0;
    while i < ts.len()
        invariant
            i <= ts.len(),
            r@ =~= spec_join(ts.deep_view().take(i as int)),
        decreases ts.len() - i,
    {
        if i > 0 {
            r.push(32);
        }
        let mut j: usize = 0;
        let ghost mid = r@;
        while j < ts[i].len()
            invariant
                j <= ts@[i as int].len(),
                i < ts@.len(),
                r@ =~= mid + ts@[i as int]@.take(j as int),
            decreases ts[i as int].len() - j,
        {
            let b = ts[i][j];
            r.push(b);
            j += 1;
        }
        proof {
            assert(ts.deep_view().take(i + 1).drop_last() =~= ts.deep_view().take(i as int));
            assert(ts.deep_view().take(i + 1).last() =~= ts.deep_view()[i as int]);
            assert(ts@[i as int]@.take(ts@[i as int]@.len() as int) =~= ts.deep_view()[i as int]);
            if i > 0 {
                assert(r@ =~= spec_join(ts.deep_view().take(i + 1)));
            } else {
                assert(r@ =~= spec_join(ts.deep_view().take(1)));
            }
        }
        i += 1;
    }
    proof {
        assert(ts.deep_view().take(i as int) =~= ts.deep_view());
    }
    r
}

/// Whether every byte is ASCII.
pub fn check_ascii(s: &[u8]) -> (r: bool)
    ensures
        r == all_ascii(s@),
{
    let mut i: usize = 0;
    while i < s.len()
        invariant
            i <= s.len(),
            forall|j: int| 0 <= j < i ==> #[trigger] s@[j] < 128,
        decreases s.len() - i,
    {
        if s[i] >= 128 {
            return false;
        }
        i += 1;
    }
    true
}

/// Whether an ASCII token reads as the given keyword.
pub fn token_is(tok: &[u8], lit: &str) -> (r: bool)
    requires
        all_ascii(tok@),
    ensures
        r == (ascii_view(tok@) == lit@),
{
    proof {
        broadcast use vstd::string::is_ascii_spec_bytes;
    }
    if !lit.is_ascii() {
        proof {
            let i = choose|i| 0 <= i < lit@.len() && !('\0' <= #[trigger] lit@[i] <= '\u{7f}');
            if ascii_view(tok@) == lit@ {
                assert(ascii_view(tok@)[i] == lit@[i]);
                assert(tok@[i] < 128);
            }
        }
        return false;
    }
    let lb = lit.as_bytes();
    let r = bytes_eq(tok, lb);
    proof {
        let bs = Seq::new(lit@.len(), |i: int| lit@[i] as u8);
        assert(lb@ =~= bs);
        if r {
            assert(ascii_view(tok@) =~= lit@);
        } else {
            if ascii_view(tok@) == lit@ {
                assert forall|i: int| 0 <= i < tok@.len() implies tok@[i] == bs[i] by {
                    assert(ascii_view(tok@)[i] == lit@[i]);
                }
                assert(tok@ =~= bs);
            }
        }
    }
    r
}

/// Relies on `String::from_utf8`: ASCII bytes are valid UTF-8 and decode to
/// the same characters one byte each.
#[verifier::external_body]
pub fn ascii_to_string(v: Vec<u8>) -> (r: String)
    requires
        all_ascii(v@),
    ensures
        r@ == ascii_view(v@),
{
    String::from_utf8(v).unwrap_or_default()
}

/// Relies on `<str as PartialEq>::eq`: string slices compare equal exactly
/// when their character sequences do.
#[verifier::external_body]
pub fn str_eq(a: &str, b: &str) -> (r: bool)
    ensures
        r == (a@ == b@),
{
    a == b
}


/// Whether `tok` is exactly the byte text of the given keyword.
pub fn is_lit(tok: &[u8], lit: &str) -> (r: bool)
    ensures
        r == (tok@ == lit.spec_bytes()),
{
    bytes_eq(tok, lit.as_bytes())
}

/// An ASCII token as an owned string.
pub fn tok_to_string(tok: &[u8]) -> (r: String)
    requires
        all_ascii(tok@),
    ensures
        r@ == ascii_view(tok@),
{
    ascii_to_string(vstd::slice::slice_to_vec(tok))
}

/// Tokens are non-empty, contain no whitespace, and inherit ASCII-ness from
/// the line they were cut from.
pub proof fn lemma_tokens_wf(s: Seq<u8>)
    ensures
        forall|k: int|
            0 <= k < spec_tokens(s).len() ==> (#[trigger] spec_tokens(s)[k]).len() > 0,
        all_ascii(s) ==> forall|k: int|
            0 <= k < spec_tokens(s).len() ==> all_ascii(#[trigger] spec_tokens(s)[k]),
    decreases s.len(),
{
    if s.len() == 0 {
    } else if is_space(s[0]) {
        lemma_tokens_wf(s.drop_first());
        assert(spec_tokens(s) == spec_tokens(s.drop_first()));
        assert forall|i: int| 0 <= i < s.drop_first().len() implies (all_ascii(s)
            ==> s.drop_first()[i] < 128) by {
            assert(s.drop_first()[i] == s[i + 1]);
        }
        if all_ascii(s) {
            assert(all_ascii(s.drop_first()));
        }
    } else {
        lemma_token_len_bounds(s);
        let t = s.take(token_len(s));
        let rest = s.skip(token_len(s));
        lemma_tokens_wf(rest);
        if all_ascii(s) {
            assert(all_ascii(t));
            assert forall|i: int| 0 <= i < rest.len() implies rest[i] < 128 by {
                assert(rest[i] == s[token_len(s) + i]);
            }
            assert(all_ascii(rest));
        }
        assert(spec_tokens(s) == seq![t] + spec_tokens(rest));
        assert(spec_tokens(s)[0] == t);
        assert forall|k: int|
            1 <= k < spec_tokens(s).len() implies spec_tokens(s)[k] == spec_tokens(rest)[k
            - 1] by {}
    }
}

/// Length of the leading run of bytes other than `sep`.
pub open spec fn piece_len(s: Seq<u8>, sep: u8) -> int
    decreases s.len(),
{
    if s.len() == 0 || s[0] == sep {
        0
    } else {
        1 + piece_len(s.drop_first(), sep)
    }
}

pub proof fn lemma_piece_len_bounds(s: Seq<u8>, sep: u8)
    ensures
        0 <= piece_len(s, sep) <= s.len(),
        forall|j: int| 0 <= j < piece_len(s, sep) ==> #[trigger] s[j] != sep,
        piece_len(s, sep) < s.len() ==> s[piece_len(s, sep)] == sep,
    decreases s.len(),
{
    if s.len() == 0 || s[0] == sep {
    } else {
        lemma_piece_len_bounds(s.drop_first(), sep);
        assert forall|j: int| 0 <= j < piece_len(s, sep) implies #[trigger] s[j] != sep by {
            if j > 0 {
                assert(s.drop_first()[j - 1] == s[j]);
            }
        }
        if piece_len(s, sep) < s.len() {
            assert(s.drop_first()[piece_len(s, sep) - 1] == s[piece_len(s, sep)]);
        }
    }
}

proof fn lemma_piece_len_unique(s: Seq<u8>, sep: u8, k: int)
    requires
        0 <= k <= s.len(),
        forall|j: int| 0 <= j < k ==> #[trigger] s[j] != sep,
        k < s.len() ==> s[k] == sep,
    ensures
        piece_len(s, sep) == k,
{
    lemma_piece_len_bounds(s, sep);
    if piece_len(s, sep) < k {
        assert(s[piece_len(s, sep)] != sep);
    }
    if piece_len(s, sep) > k {
        assert(s[k] != sep);
    }
}

/// The pieces of `s` cut at every occurrence of `sep`; empty pieces are kept,
/// and a trailing separator yields no extra piece.
pub open spec fn spec_split(s: Seq<u8>, sep: u8) -> Seq<Seq<u8>>
    decreases s.len(),
    via spec_split_dec
{
    if s.len() == 0 {
        seq![]
    } else if piece_len(s, sep) == s.len() {
        seq![s]
    } else {
        seq![s.take(piece_len(s, sep))] + spec_split(s.skip(piece_len(s, sep) + 1), sep)
    }
}

#[via_fn]
proof fn spec_split_dec(s: Seq<u8>, sep: u8) {
    lemma_piece_len_bounds(s, sep);
}

/// Split a byte text at every occurrence of `sep`.
pub fn split_on(s: &[u8], sep: u8) -> (r: Vec<Vec<u8>>)
    ensures
        r.deep_view() == spec_split(s@, sep),
{
    let mut r: Vec<Vec<u8>> = Vec::new();
    let mut i: usize = 0;
    proof {
        assert(s@.skip(0) =~= s@);
        assert(r.deep_view() + spec_split(s@, sep) =~= spec_split(s@, sep));
    }
    while i < s.len()
        invariant
            i <= s.len(),
            spec_split(s@, sep) == r.deep_view() + spec_split(s@.skip(i as int), sep),
        decreases s.len() - i,
    {
        let ghost rest = s@.skip(i as int);
        let start = i;
        let mut piece: Vec<u8> = Vec::new();
        while i < s.len() && s[i] != sep
            invariant
                start <= i <= s.len(),
                piece@ =~= s@.subrange(start as int, i as int),
                forall|j: int| start <= j < i ==> #[trigger] s@[j] != sep,
            decreases s.len() - i,
        {
            piece.push(s[i]);
            i += 1;
        }
        proof {
            assert forall|j: int| 0 <= j < i - start implies #[trigger] rest[j] != sep by {
                assert(rest[j] == s@[start + j]);
            }
            if i < s.len() {
                assert(rest[i - start] == s@[i as int]);
            }
            lemma_piece_len_unique(rest, sep, i - start);
            assert(rest.take(piece_len(rest, sep)) =~= piece@);
        }
        let ghost old_r = r.deep_view();
        let ghost piece_v = piece@;
        r.push(piece);
        proof {
            assert(r.deep_view() =~~= old_r + seq![piece_v]);
            if i < s.len() {
                assert(rest.skip(piece_len(rest, sep) + 1) =~= s@.skip(i + 1));
                assert(spec_split(rest, sep) == seq![piece_v] + spec_split(s@.skip(i + 1), sep));
                assert(old_r + seq![piece_v] + spec_split(s@.skip(i + 1), sep) =~= old_r
                    + spec_split(rest, sep));
            } else {
                assert(piece_len(rest, sep) == rest.len());
                assert(rest =~= piece_v);
                assert(spec_split(rest, sep) == seq![piece_v]);
                assert(old_r + seq![piece_v] =~= old_r + spec_split(rest, sep));
                assert(s@.skip(i as int).len() == 0);
                assert(spec_split(s@.skip(i as int), sep) =~= Seq::<Seq<u8>>::empty());
                assert(old_r + seq![piece_v] + spec_split(s@.skip(i as int), sep) =~= old_r
                    + seq![piece_v]);
            }
        }
        if i < s.len() {
            i += 1;
        }
    }
    proof {
        assert(spec_split(s@.skip(i as int), sep) =~= Seq::<Seq<u8>>::empty());
        assert(r.deep_view() =~= r.deep_view() + Seq::<Seq<u8>>::empty());
    }
    r
}

/// The text without leading or trailing whitespace.
pub open spec fn spec_trim(s: Seq<u8>) -> Seq<u8>
    decreases s.len(),
{
    if s.len() == 0 {
        s
    } else if is_space(s[0]) {
        spec_trim(s.drop_first())
    } else if is_space(s.last()) {
        spec_trim(s.drop_last())
    } else {
        s
    }
}

/// Strip leading and trailing whitespace.
pub fn trim_bytes(s: &[u8]) -> (r: Vec<u8>)
    ensures
        r@ == spec_trim(s@),
{
    let mut lo: usize = 0;
    let mut hi: usize = s.len();
    proof {
        assert(s@.subrange(0, s@.len() as int) =~= s@);
    }
    while lo < hi && (s[lo] == 32 || s[lo] == 9 || s[lo] == 13)
        invariant
            lo <= hi <= s.len(),
            spec_trim(s@) == spec_trim(s@.subrange(lo as int, hi as int)),
            hi == s.len(),
        decreases hi - lo,
    {
        proof {
            assert(s@.subrange(lo as int, hi as int).drop_first() =~= s@.subrange(
                lo + 1,
                hi as int,
            ));
        }
        lo += 1;
    }
    while lo < hi && (s[hi - 1] == 32 || s[hi - 1] == 9 || s[hi - 1] == 13)
        invariant
            lo <= hi <= s.len(),
            spec_trim(s@) == spec_trim(s@.subrange(lo as int, hi as int)),
            lo < hi ==> !is_space(s@[lo as int]),
        decreases hi,
    {
        proof {
            let piece = s@.subrange(lo as int, hi as int);
            assert(piece.last() == s@[hi - 1]);
            assert(piece[0] == s@[lo as int]);
            assert(piece.drop_last() =~= s@.subrange(lo as int, hi - 1));
            if lo < hi - 1 {
                assert(s@.subrange(lo as int, hi - 1)[0] == s@[lo as int]);
            }
        }
        hi -= 1;
    }
    let r = vstd::slice::slice_to_vec(slice_subrange(s, lo, hi));
    proof {
        let piece = s@.subrange(lo as int, hi as int);
        if piece.len() > 0 {
            assert(!is_space(piece[0]));
            assert(!is_space(piece.last()));
        }
        assert(spec_trim(piece) == piece);
    }
    r
}


/// Joining ASCII tokens yields ASCII text.
pub proof fn lemma_join_ascii(ts: Seq<Seq<u8>>)
    requires
        forall|k: int| 0 <= k < ts.len() ==> all_ascii(#[trigger] ts[k]),
    ensures
        all_ascii(spec_join(ts)),
    decreases ts.len(),
{
    if ts.len() == 0 {
    } else if ts.len() == 1 {
        assert(all_ascii(ts[0]));
    } else {
        lemma_join_ascii(ts.drop_last());
        let j = spec_join(ts.drop_last());
        let full = j + seq![32u8] + ts.last();
        assert forall|i: int| 0 <= i < full.len() implies full[i] < 128 by {
            if i < j.len() {
                assert(full[i] == j[i]);
            } else if i == j.len() {
            } else {
                assert(full[i] == ts.last()[i - j.len() - 1]);
            }
        }
    }
}

} // verus!
