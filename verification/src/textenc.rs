//! Byte-level text encoding shared by the document emitters: decimal
//! rendering of indices, the textual form of the scalar coordinates, and the
//! splitting of emitted documents back into lines and tokens on which the
//! round-trip statements rest.

use vstd::prelude::*;
use rapier3d::math::Real;

verus! {

/// Newline, space: the two separators of the emitted documents.
pub const NL: u8 = 10;

pub const SP: u8 = 32;

/// The decimal digits of `n`, most significant first.
pub open spec fn dec_spec(n: nat) -> Seq<u8>
    decreases n,
{
    if n < 10 {
        seq![(48 + n) as u8]
    } else {
        dec_spec(n / 10).push((48 + n % 10) as u8)
    }
}

/// The value of a digit string, most significant first.
pub open spec fn dec_val(s: Seq<u8>) -> nat
    decreases s.len(),
{
    if s.len() == 0 {
        0
    } else {
        dec_val(s.drop_last()) * 10 + (if s.last() >= 48 {
            (s.last() - 48) as nat
        } else {
            0
        })
    }
}

/// A decimal rendering is never empty and holds digit bytes only.
pub proof fn lemma_dec_digits(n: nat)
    ensures
        dec_spec(n).len() >= 1,
        forall|i: int| 0 <= i < dec_spec(n).len() ==> 48 <= #[trigger] dec_spec(n)[i] <= 57,
    decreases n,
{
    if n >= 10 {
        lemma_dec_digits(n / 10);
    }
}

/// Reading the decimal digits back yields the number that was rendered.
pub proof fn lemma_dec_round_trip(n: nat)
    ensures
        dec_val(dec_spec(n)) == n,
    decreases n,
{
    if n < 10 {
        assert(dec_spec(n).drop_last() =~= Seq::<u8>::empty());
        assert(dec_val(Seq::<u8>::empty()) == 0);
        assert(dec_spec(n).last() == (48 + n) as u8);
    } else {
        lemma_dec_round_trip(n / 10);
        assert(dec_spec(n).drop_last() =~= dec_spec(n / 10));
        assert(n == (n / 10) * 10 + n % 10) by {
            vstd::arithmetic::div_mod::lemma_fundamental_div_mod(n as int, 10);
        }
    }
}

/// Render `n` in decimal, most significant digit first.
pub fn fmt_u64(n: u64) -> (r: Vec<u8>)
    ensures
        r@ == dec_spec(n as nat),
    decreases n,
{
    if n < 10 {
        let mut v: Vec<u8> = Vec::new();
        v.push(48 + n as u8);
        proof {
            assert(v@ =~= dec_spec(n as nat));
        }
        v
    } else {
        let mut r = fmt_u64(n / 10);
        r.push(48 + (n % 10) as u8);
        r
    }
}

/// The index of the first occurrence of `sep` in `s` (or `s.len()`).
pub open spec fn find_sep(s: Seq<u8>, sep: u8) -> nat
    decreases s.len(),
{
    if s.len() == 0 {
        0
    } else if s[0] == sep {
        0
    } else {
        1 + find_sep(s.drop_first(), sep)
    }
}

pub proof fn lemma_find_sep(s: Seq<u8>, sep: u8)
    ensures
        find_sep(s, sep) <= s.len(),
        forall|j: int| 0 <= j < find_sep(s, sep) ==> s[j] != sep,
        find_sep(s, sep) < s.len() ==> s[find_sep(s, sep) as int] == sep,
    decreases s.len(),
{
    if s.len() > 0 && s[0] != sep {
        lemma_find_sep(s.drop_first(), sep);
        assert forall|j: int| 0 <= j < find_sep(s, sep) implies s[j] != sep by {
            if j > 0 {
                assert(s.drop_first()[j - 1] != sep);
            }
        }
    }
}

/// Split `s` at every occurrence of `sep`.  A trailing separator closes the
/// last piece without opening an empty one, so a document of
/// separator-terminated lines splits into exactly those lines.
pub open spec fn split_at(s: Seq<u8>, sep: u8) -> Seq<Seq<u8>>
    decreases s.len(),
{
    if s.len() == 0 {
        Seq::empty()
    } else {
        let i = find_sep(s, sep) as int;
        if i < s.len() {
            seq![s.take(i)] + split_at(s.skip(i + 1), sep)
        } else {
            seq![s]
        }
    }
}

pub proof fn lemma_find_sep_concat(l: Seq<u8>, sep: u8, rest: Seq<u8>)
    requires
        forall|j: int| 0 <= j < l.len() ==> l[j] != sep,
    ensures
        find_sep(l + seq![sep] + rest, sep) == l.len(),
    decreases l.len(),
{
    let s = l + seq![sep] + rest;
    if l.len() == 0 {
        assert(s[0] == sep);
    } else {
        lemma_find_sep_concat(l.drop_first(), sep, rest);
        assert(s.drop_first() =~= l.drop_first() + seq![sep] + rest);
    }
}

/// Splitting `piece sep rest` where the piece is separator-free yields the
/// piece and then whatever `rest` splits into.
pub proof fn lemma_split_prepend(l: Seq<u8>, sep: u8, rest: Seq<u8>)
    requires
        forall|j: int| 0 <= j < l.len() ==> l[j] != sep,
    ensures
        split_at(l + seq![sep] + rest, sep) == seq![l] + split_at(rest, sep),
{
    let s = l + seq![sep] + rest;
    lemma_find_sep_concat(l, sep, rest);
    let i = l.len() as int;
    assert(s.len() == l.len() + 1 + rest.len());
    assert(s.take(i) =~= l);
    assert(s.skip(i + 1) =~= rest);
    assert(split_at(s, sep) =~= seq![l] + split_at(rest, sep));
}

/// A separator-free non-empty piece splits into just itself.
pub proof fn lemma_split_single(l: Seq<u8>, sep: u8)
    requires
        l.len() > 0,
        forall|j: int| 0 <= j < l.len() ==> l[j] != sep,
    ensures
        split_at(l, sep) == seq![l],
{
    lemma_find_sep(l, sep);
    assert(find_sep(l, sep) == l.len());
}

/// `s` with its leading spaces removed.
pub open spec fn trim_sp(s: Seq<u8>) -> Seq<u8>
    decreases s.len(),
{
    if s.len() > 0 && s[0] == SP {
        trim_sp(s.drop_first())
    } else {
        s
    }
}

/// `k` spaces.
pub open spec fn spaces(k: nat) -> Seq<u8> {
    Seq::new(k, |i: int| SP)
}

pub proof fn lemma_trim_spaces(k: nat, rest: Seq<u8>)
    requires
        rest.len() == 0 || rest[0] != SP,
    ensures
        trim_sp(spaces(k) + rest) == rest,
    decreases k,
{
    let s = spaces(k) + rest;
    if k == 0 {
        assert(s =~= rest);
    } else {
        assert(s.len() > 0 && s[0] == SP);
        assert(s.drop_first() =~= spaces((k - 1) as nat) + rest);
        lemma_trim_spaces((k - 1) as nat, rest);
    }
}

/// The textual form of the coordinate with this bit pattern under the
/// standard display formatting of the scalar type.  A function of the bits
/// alone.
pub uninterp spec fn display_text(bits: u32) -> Seq<u8>;

/// The textual form of the coordinate with this bit pattern in the JSON
/// document (a JSON number, or `null` for a non-finite value).  A function of
/// the bits alone.
pub uninterp spec fn json_number_text(bits: u32) -> Seq<u8>;

/// Relies on the standard `Display` formatting of `rapier3d::math::Real`
/// (an IEEE-754 single-precision value): digits, sign, decimal point,
/// exponent or the words `inf` / `NaN` — in particular, never a newline, and
/// never empty.
#[verifier::external_body]
pub fn fmt_real_display(bits: u32) -> (r: Vec<u8>)
    ensures
        r@ == display_text(bits) && display_text(bits).len() > 0 && forall|i: int|
            0 <= i < display_text(bits).len() ==> display_text(bits)[i] != NL,
{
    format!("{}", Real::from_bits(bits)).into_bytes()
}

/// Relies on `serde_json::to_string` for the scalar type
/// `rapier3d::math::Real`: the shortest round-trip decimal for a finite
/// value and `null` otherwise — in particular, never a newline, and never
/// empty.
#[verifier::external_body]
pub fn fmt_real_json(bits: u32) -> (r: Vec<u8>)
    ensures
        r@ == json_number_text(bits) && json_number_text(bits).len() > 0 && forall|i: int|
            0 <= i < json_number_text(bits).len() ==> json_number_text(bits)[i] != NL,
{
    serde_json::to_string(&Real::from_bits(bits)).unwrap().into_bytes()
}

/// Lines joined into a document, each line closed by a newline.
pub open spec fn join_lines(ls: Seq<Seq<u8>>) -> Seq<u8>
    decreases ls.len(),
{
    if ls.len() == 0 {
        Seq::empty()
    } else {
        ls.first() + seq![NL] + join_lines(ls.drop_first())
    }
}

pub proof fn lemma_join_snoc(ls: Seq<Seq<u8>>, l: Seq<u8>)
    ensures
        join_lines(ls.push(l)) == join_lines(ls) + l + seq![NL],
    decreases ls.len(),
{
    if ls.len() == 0 {
        assert(ls.push(l).drop_first() =~= Seq::<Seq<u8>>::empty());
        assert(ls.push(l).first() == l);
        assert(join_lines(Seq::<Seq<u8>>::empty()) == Seq::<u8>::empty());
        assert(join_lines(ls.push(l)) =~= join_lines(ls) + l + seq![NL]);
    } else {
        assert(ls.push(l).drop_first() =~= ls.drop_first().push(l));
        lemma_join_snoc(ls.drop_first(), l);
        assert(join_lines(ls.push(l)) =~= join_lines(ls) + l + seq![NL]);
    }
}

/// Splitting a joined document recovers exactly the lines, provided no line
/// holds a newline itself.
pub proof fn lemma_split_join(ls: Seq<Seq<u8>>)
    requires
        forall|k: int, i: int|
            0 <= k < ls.len() && 0 <= i < ls[k].len() ==> #[trigger] ls[k][i] != NL,
    ensures
        split_at(join_lines(ls), NL) == ls,
    decreases ls.len(),
{
    if ls.len() > 0 {
        lemma_split_join(ls.drop_first());
        assert(forall|i: int| 0 <= i < ls.first().len() ==> ls.first()[i] != NL) by {
            assert(ls.first() == ls[0]);
        }
        lemma_split_prepend(ls.first(), NL, join_lines(ls.drop_first()));
        assert(seq![ls.first()] + ls.drop_first() =~= ls);
    }
}

/// Copy the bytes of `src` onto the end of `dst`.
pub fn push_bytes(dst: &mut Vec<u8>, src: &Vec<u8>)
    ensures
        final(dst)@ == old(dst)@ + src@,
{
    let mut i: usize = 0;
    while i < src.len()
        invariant
            i <= src@.len(),
            dst@ == old(dst)@ + src@.take(i as int),

        decreases src@.len() - i,
    {
        dst.push(src[i]);
        proof {
            assert(src@.take(i + 1) =~= src@.take(i as int).push(src@[i as int]));
        }
        i = i + 1;
    }
    proof {
        assert(src@.take(src@.len() as int) =~= src@);
    }
}

} // verus!
