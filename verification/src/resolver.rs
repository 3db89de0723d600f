use crate::types::{ProjectSetup, ScaffoldError};
use vstd::prelude::*;
use vstd::string::StringExecFns;

verus! {

/// The classification of a template name: one of the three reserved
/// placeholder tokens, or a literal folder name used verbatim.
#[derive(Clone, Copy, Debug, PartialEq, Eq, Structural)]
pub enum SegmentKind {
    Days,
    Cams,
    SoundSources,
    Literal,
}

pub open spec fn spec_kind(name: Seq<char>) -> SegmentKind {
    if name == "%days"@ {
        SegmentKind::Days
    } else if name == "%cams"@ {
        SegmentKind::Cams
    } else if name == "%soundsources"@ {
        SegmentKind::SoundSources
    } else {
        SegmentKind::Literal
    }
}

/// The decimal digit character for `d` (meaningful for `d <= 9`).
pub open spec fn digit_char(d: nat) -> char {
    ((d + 48) as u8) as char
}

/// The decimal representation of `n`, most significant digit first.
pub open spec fn dec_rep(n: nat) -> Seq<char>
    decreases n,
{
    if n < 10 {
        seq![digit_char(n)]
    } else {
        dec_rep(n / 10).push(digit_char(n % 10))
    }
}

/// The decimal representation, padded with a leading zero to width two;
/// numbers of three or more digits keep their natural width.
pub open spec fn padded2(n: nat) -> Seq<char> {
    if n < 10 {
        seq!['0'] + dec_rep(n)
    } else {
        dec_rep(n)
    }
}

/// The alphabetic label of a 1-based position: 'A' for 1 through 'Z' for 26.
pub open spec fn letter_of(i: nat) -> char
    recommends
        1 <= i <= 26,
{
    ((i + 64) as u8) as char
}

/// Relies on `String::push` from std: appends exactly one character to
/// the end of the string.
#[verifier::external_body]
pub(crate) fn push_char(s: &mut String, c: char)
    ensures
        final(s)@ == old(s)@.push(c),
{
    s.push(c);
}

/// The alphabetic label for a 1-based position, `None` outside 1..=26.
pub fn num_to_char(num: usize) -> (r: Option<char>)
    ensures
        r == if 1 <= num <= 26 {
            Some(letter_of(num as nat))
        } else {
            None::<char>
        },
{
    if num >= 1 && num <= 26 {
        Some((num as u8 + 65 - 1) as char)
    } else {
        None
    }
}

/// Renders `n` in decimal.
pub fn dec_string(n: usize) -> (r: String)
    ensures
        r@ == dec_rep(n as nat),
    decreases n,
{
    if n < 10 {
        let mut s = String::new();
        push_char(&mut s, (48 + n as u8) as char);
        proof {
            assert(s@ =~= dec_rep(n as nat));
        }
        s
    } else {
        let mut s = dec_string(n / 10);
        push_char(&mut s, (48 + (n % 10) as u8) as char);
        s
    }
}

/// Renders `n` in decimal, padded with a leading zero to width two.
pub fn padded_dec(n: usize) -> (r: String)
    ensures
        r@ == padded2(n as nat),
{
    if n < 10 {
        let mut s = String::from_str("0");
        let d = dec_string(n);
        s.append(d.as_str());
        proof {
            reveal_strlit("0");
            assert(s@ =~= padded2(n as nat));
        }
        s
    } else {
        dec_string(n)
    }
}

/// The directory name for day `i`: two-digit index, then `_DAY`, then
/// the index again.
pub open spec fn day_fragment(i: nat) -> Seq<char> {
    padded2(i) + "_DAY"@ + padded2(i)
}

/// The directory name for camera `i`: two-digit index, the alphabetic
/// label, then `_CAM`.
pub open spec fn cam_fragment(i: nat) -> Seq<char> {
    padded2(i) + "_"@ + seq![letter_of(i)] + "_CAM"@
}

/// The directory name for sound source `i`: two-digit index, the
/// alphabetic label, then `_REC`.
pub open spec fn rec_fragment(i: nat) -> Seq<char> {
    padded2(i) + "_"@ + seq![letter_of(i)] + "_REC"@
}

pub open spec fn day_fragments(n: nat) -> Seq<Seq<char>> {
    Seq::new(n, |k: int| day_fragment((k + 1) as nat))
}

pub open spec fn cam_fragments(n: nat) -> Seq<Seq<char>> {
    Seq::new(n, |k: int| cam_fragment((k + 1) as nat))
}

pub open spec fn rec_fragments(n: nat) -> Seq<Seq<char>> {
    Seq::new(n, |k: int| rec_fragment((k + 1) as nat))
}

/// What resolving one template name against the setup yields: an ordered
/// list of concrete name fragments, a capacity error when a letter-labeled
/// count exceeds 26, or the name itself when it is no reserved token.
pub open spec fn spec_resolve(name: Seq<char>, setup: ProjectSetup) -> Result<
    Seq<Seq<char>>,
    ScaffoldError,
> {
    match spec_kind(name) {
        SegmentKind::Days => Ok(day_fragments(setup.days as nat)),
        SegmentKind::Cams => if setup.cameras <= 26 {
            Ok(cam_fragments(setup.cameras as nat))
        } else {
            Err(ScaffoldError::Capacity)
        },
        SegmentKind::SoundSources => if setup.sound_sources <= 26 {
            Ok(rec_fragments(setup.sound_sources as nat))
        } else {
            Err(ScaffoldError::Capacity)
        },
        SegmentKind::Literal => Ok(seq![name]),
    }
}

/// Classifies a template name as a reserved token or a literal.
pub fn classify(name: &String) -> (k: SegmentKind)
    ensures
        k == spec_kind(name@),
{
    if name.eq(&String::from_str("%days")) {
        SegmentKind::Days
    } else if name.eq(&String::from_str("%cams")) {
        SegmentKind::Cams
    } else if name.eq(&String::from_str("%soundsources")) {
        SegmentKind::SoundSources
    } else {
        SegmentKind::Literal
    }
}

fn day_fragment_str(i: usize) -> (r: String)
    ensures
        r@ == day_fragment(i as nat),
{
    let p = padded_dec(i);
    let mut s = p.clone();
    s.append("_DAY");
    s.append(p.as_str());
    proof {
        assert(s@ =~= day_fragment(i as nat));
    }
    s
}

fn cam_fragment_str(i: usize) -> (r: String)
    requires
        1 <= i <= 26,
    ensures
        r@ == cam_fragment(i as nat),
{
    let mut s = padded_dec(i);
    s.append("_");
    let c = num_to_char(i).unwrap();
    push_char(&mut s, c);
    s.append("_CAM");
    proof {
        assert(s@ =~= cam_fragment(i as nat));
    }
    s
}

fn rec_fragment_str(i: usize) -> (r: String)
    requires
        1 <= i <= 26,
    ensures
        r@ == rec_fragment(i as nat),
{
    let mut s = padded_dec(i);
    s.append("_");
    let c = num_to_char(i).unwrap();
    push_char(&mut s, c);
    s.append("_REC");
    proof {
        assert(s@ =~= rec_fragment(i as nat));
    }
    s
}

/// Whether `c` is a decimal digit character.
pub open spec fn is_digit(c: char) -> bool {
    48 <= c as u32 <= 57
}

/// Every character of a decimal representation is a digit.
pub proof fn lemma_dec_rep_digits(n: nat)
    ensures
        forall|i: int| 0 <= i < dec_rep(n).len() ==> is_digit(#[trigger] dec_rep(n)[i]),
    decreases n,
{
    if n < 10 {
        assert(dec_rep(n)[0] == digit_char(n));
        assert(is_digit(digit_char(n)));
    } else {
        lemma_dec_rep_digits(n / 10);
        assert(is_digit(digit_char(n % 10)));
        assert(forall|i: int|
            0 <= i < dec_rep(n / 10).len() ==> #[trigger] dec_rep(n)[i] == dec_rep(n / 10)[i]);
        assert(dec_rep(n)[dec_rep(n / 10).len() as int] == digit_char(n % 10));
    }
}

/// A decimal representation holds at least one character, exactly one
/// only below ten.
pub proof fn lemma_dec_rep_len(n: nat)
    ensures
        dec_rep(n).len() >= 1,
        n < 10 <==> dec_rep(n).len() == 1,
    decreases n,
{
    if n >= 10 {
        lemma_dec_rep_len(n / 10);
    }
}

/// A positive number's representation does not start with a zero.
pub proof fn lemma_dec_rep_first_nonzero(n: nat)
    requires
        n >= 1,
    ensures
        dec_rep(n)[0] as u32 != 48,
    decreases n,
{
    if n < 10 {
        assert(dec_rep(n)[0] == digit_char(n));
    } else {
        lemma_dec_rep_len(n / 10);
        lemma_dec_rep_first_nonzero(n / 10);
        assert(dec_rep(n)[0] == dec_rep(n / 10)[0]);
    }
}

/// Decimal representations are distinct for distinct numbers.
pub proof fn lemma_dec_rep_injective(a: nat, b: nat)
    requires
        dec_rep(a) == dec_rep(b),
    ensures
        a == b,
    decreases a,
{
    lemma_dec_rep_len(a);
    lemma_dec_rep_len(b);
    if a < 10 && b < 10 {
        assert(dec_rep(a)[0] == digit_char(a));
        assert(dec_rep(b)[0] == digit_char(b));
        assert(digit_char(a) as u32 == a + 48);
        assert(digit_char(b) as u32 == b + 48);
    } else if a >= 10 && b >= 10 {
        let s1 = dec_rep(a / 10);
        let s2 = dec_rep(b / 10);
        assert(s1.push(digit_char(a % 10)).len() == s2.push(digit_char(b % 10)).len());
        assert(s1.push(digit_char(a % 10))[s1.len() as int] == digit_char(a % 10));
        assert(s2.push(digit_char(b % 10))[s2.len() as int] == digit_char(b % 10));
        assert(digit_char(a % 10) == digit_char(b % 10));
        assert(digit_char(a % 10) as u32 == a % 10 + 48);
        assert(digit_char(b % 10) as u32 == b % 10 + 48);
        assert(a % 10 == b % 10);
        assert forall|i: int| 0 <= i < s1.len() implies s1[i] == s2[i] by {
            assert(s1.push(digit_char(a % 10))[i] == s1[i]);
            assert(s2.push(digit_char(b % 10))[i] == s2[i]);
        }
        assert(s1 =~= s2);
        lemma_dec_rep_injective(a / 10, b / 10);
        assert(a == 10 * (a / 10) + a % 10) by (nonlinear_arith);
        assert(b == 10 * (b / 10) + b % 10) by (nonlinear_arith);
    } else {
        // One representation has one character, the other at least two.
        assert(false);
    }
}

/// Padded representations are distinct for distinct numbers.
pub proof fn lemma_padded2_injective(a: nat, b: nat)
    requires
        padded2(a) == padded2(b),
    ensures
        a == b,
{
    lemma_dec_rep_len(a);
    lemma_dec_rep_len(b);
    if a < 10 && b < 10 {
        assert((seq!['0'] + dec_rep(a))[1] == dec_rep(a)[0]);
        assert((seq!['0'] + dec_rep(b))[1] == dec_rep(b)[0]);
        assert(dec_rep(a) =~= dec_rep(b));
        lemma_dec_rep_injective(a, b);
    } else if a < 10 && b >= 10 {
        assert(padded2(a)[0] == '0');
        lemma_dec_rep_first_nonzero(b);
        assert('0' as u32 == 48);
        assert(false);
    } else if a >= 10 && b < 10 {
        assert(padded2(b)[0] == '0');
        lemma_dec_rep_first_nonzero(a);
        assert('0' as u32 == 48);
        assert(false);
    } else {
        lemma_dec_rep_injective(a, b);
    }
}

/// Every character of a padded representation is a digit, and it is at
/// least two characters long.
pub proof fn lemma_padded2_digits(n: nat)
    ensures
        forall|i: int| 0 <= i < padded2(n).len() ==> is_digit(#[trigger] padded2(n)[i]),
        padded2(n).len() >= 2,
{
    lemma_dec_rep_digits(n);
    lemma_dec_rep_len(n);
    if n < 10 {
        assert(padded2(n)[0] == '0');
        assert('0' as u32 == 48);
        assert(forall|i: int|
            1 <= i < padded2(n).len() ==> #[trigger] padded2(n)[i] == dec_rep(n)[i - 1]);
    }
}

/// Two character sequences that each start with an unbroken run of
/// digits ended by a non-digit split identically: equal concatenations
/// mean equal digit runs and equal tails.
pub proof fn lemma_digit_run_splits(p1: Seq<char>, t1: Seq<char>, p2: Seq<char>, t2: Seq<char>)
    requires
        forall|i: int| 0 <= i < p1.len() ==> is_digit(#[trigger] p1[i]),
        forall|i: int| 0 <= i < p2.len() ==> is_digit(#[trigger] p2[i]),
        t1.len() >= 1,
        t2.len() >= 1,
        !is_digit(t1[0]),
        !is_digit(t2[0]),
        p1 + t1 == p2 + t2,
    ensures
        p1 == p2,
        t1 == t2,
{
    if p1.len() < p2.len() {
        assert((p1 + t1)[p1.len() as int] == t1[0]);
        assert((p2 + t2)[p1.len() as int] == p2[p1.len() as int]);
        assert(false);
    } else if p2.len() < p1.len() {
        assert((p2 + t2)[p2.len() as int] == t2[0]);
        assert((p1 + t1)[p2.len() as int] == p1[p2.len() as int]);
        assert(false);
    } else {
        assert forall|i: int| 0 <= i < p1.len() implies p1[i] == p2[i] by {
            assert((p1 + t1)[i] == p1[i]);
            assert((p2 + t2)[i] == p2[i]);
        }
        assert(p1 =~= p2);
        assert(p1.len() + t1.len() == (p1 + t1).len());
        assert(p2.len() + t2.len() == (p2 + t2).len());
        assert((p1 + t1).len() == (p2 + t2).len());
        assert(t1.len() == t2.len());
        assert forall|i: int| 0 <= i < t1.len() implies t1[i] == t2[i] by {
            assert((p1 + t1)[p1.len() + i] == t1[i]);
            assert((p2 + t2)[p2.len() + i] == t2[i]);
        }
        assert(t1 =~= t2);
    }
}

/// Equal concatenations with the same left part have equal right parts.
pub proof fn lemma_concat_cancel_left(a: Seq<char>, x: Seq<char>, y: Seq<char>)
    requires
        a + x == a + y,
    ensures
        x == y,
{
    assert(a.len() + x.len() == (a + x).len());
    assert(a.len() + y.len() == (a + y).len());
    assert((a + x).len() == (a + y).len());
    assert(x.len() == y.len());
    assert forall|i: int| 0 <= i < x.len() implies x[i] == y[i] by {
        assert((a + x)[a.len() + i] == x[i]);
        assert((a + y)[a.len() + i] == y[i]);
    }
    assert(x =~= y);
}

/// Distinct days give distinct day fragments, and the fragment
/// determines the tail that follows it in a path.
pub proof fn lemma_day_fragment_splits(d1: nat, d2: nat, r1: Seq<char>, r2: Seq<char>)
    requires
        r1.len() >= 1,
        r2.len() >= 1,
        !is_digit(r1[0]),
        !is_digit(r2[0]),
        day_fragment(d1) + r1 == day_fragment(d2) + r2,
    ensures
        d1 == d2,
        r1 == r2,
{
    lemma_padded2_digits(d1);
    lemma_padded2_digits(d2);
    let u1 = "_DAY"@ + padded2(d1) + r1;
    let u2 = "_DAY"@ + padded2(d2) + r2;
    assert(padded2(d1) + u1 =~= day_fragment(d1) + r1);
    assert(padded2(d2) + u2 =~= day_fragment(d2) + r2);
    reveal_strlit("_DAY");
    assert(u1[0] == '_' && u2[0] == '_');
    assert('_' as u32 == 95);
    lemma_digit_run_splits(padded2(d1), u1, padded2(d2), u2);
    lemma_padded2_injective(d1, d2);
    lemma_concat_cancel_left("_DAY"@ + padded2(d1), r1, r2);
}

/// Expands one template name into its ordered list of name fragments:
/// `%days` gives one numbered fragment per day, `%cams` and
/// `%soundsources` one numbered and letter-labeled fragment per device
/// (failing beyond 26), and any other name stands for itself.
pub fn resolve_placeholder(name: &String, setup: &ProjectSetup) -> (r: Result<
    Vec<String>,
    ScaffoldError,
>)
    ensures
        crate::types::paths_view(r) == spec_resolve(name@, *setup),
{
    match classify(name) {
        SegmentKind::Days => {
            let mut v: Vec<String> = Vec::new();
            for idx in 0..setup.days
                invariant
                    v@.len() == idx,
                    v.deep_view() == day_fragments(setup.days as nat).take(idx as int),
            {
                let f = day_fragment_str(idx + 1);
                v.push(f);
                proof {
                    assert(v.deep_view() =~= day_fragments(setup.days as nat).take(
                        idx + 1 as int,
                    ));
                }
            }
            proof {
                assert(day_fragments(setup.days as nat).take(setup.days as int) =~= day_fragments(
                    setup.days as nat,
                ));
            }
            Ok(v)
        },
        SegmentKind::Cams => {
            if setup.cameras > 26 {
                return Err(ScaffoldError::Capacity);
            }
            let mut v: Vec<String> = Vec::new();
            for idx in 0..setup.cameras
                invariant
                    setup.cameras <= 26,
                    v@.len() == idx,
                    v.deep_view() == cam_fragments(setup.cameras as nat).take(idx as int),
            {
                let f = cam_fragment_str(idx + 1);
                v.push(f);
                proof {
                    assert(v.deep_view() =~= cam_fragments(setup.cameras as nat).take(
                        idx + 1 as int,
                    ));
                }
            }
            proof {
                assert(cam_fragments(setup.cameras as nat).take(setup.cameras as int)
                    =~= cam_fragments(setup.cameras as nat));
            }
            Ok(v)
        },
        SegmentKind::SoundSources => {
            if setup.sound_sources > 26 {
                return Err(ScaffoldError::Capacity);
            }
            let mut v: Vec<String> = Vec::new();
            for idx in 0..setup.sound_sources
                invariant
                    setup.sound_sources <= 26,
                    v@.len() == idx,
                    v.deep_view() == rec_fragments(setup.sound_sources as nat).take(idx as int),
            {
                let f = rec_fragment_str(idx + 1);
                v.push(f);
                proof {
                    assert(v.deep_view() =~= rec_fragments(setup.sound_sources as nat).take(
                        idx + 1 as int,
                    ));
                }
            }
            proof {
                assert(rec_fragments(setup.sound_sources as nat).take(setup.sound_sources as int)
                    =~= rec_fragments(setup.sound_sources as nat));
            }
            Ok(v)
        },
        SegmentKind::Literal => {
            let mut v: Vec<String> = Vec::new();
            v.push(name.clone());
            proof {
                assert(v.deep_view() =~= seq![name@]);
            }
            Ok(v)
        },
    }
}

} // verus!
