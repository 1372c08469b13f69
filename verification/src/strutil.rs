//! Verified string helpers: equality, decimal formatting of rationals, and
//! parsing of numbers written as `n`, `n.f` or `n/m`.

use crate::rat::Rat;
use vstd::prelude::*;

verus! {

/// Relies on `String::push`: appends one character at the end, as its
/// documentation states; vstd gives this method no specification.
pub assume_specification[ String::push ](s: &mut String, c: char)
    ensures
        final(s)@ == old(s)@.push(c),
;

/// Exact string equality on views.
pub fn str_eq(a: &str, b: &str) -> (r: bool)
    ensures
        r == (a@ == b@),
{
    let la = a.unicode_len();
    let lb = b.unicode_len();
    if la != lb {
        return false;
    }
    let mut i: usize = 0;
    while i < la
        invariant
            la == a@.len(),
            la == b@.len(),
            i <= la,
            forall|j: int| 0 <= j < i ==> a@[j] == b@[j],
        decreases la - i,
    {
        if a.get_char(i) != b.get_char(i) {
            return false;
        }
        i = i + 1;
    }
    proof {
        assert(a@ =~= b@);
    }
    true
}

/// Is `c` a decimal digit?
pub open spec fn is_digit(c: char) -> bool {
    48 <= c as u32 <= 57
}

/// The numeric value of a digit character.
pub open spec fn digit_val(c: char) -> nat {
    (c as u32 - 48) as nat
}

/// The digit character for `d < 10`.
pub open spec fn spec_digit_char(d: nat) -> char {
    if d == 0 {
        '0'
    } else if d == 1 {
        '1'
    } else if d == 2 {
        '2'
    } else if d == 3 {
        '3'
    } else if d == 4 {
        '4'
    } else if d == 5 {
        '5'
    } else if d == 6 {
        '6'
    } else if d == 7 {
        '7'
    } else if d == 8 {
        '8'
    } else {
        '9'
    }
}

/// The decimal spelling of `n`.
pub open spec fn spec_u64_dec(n: nat) -> Seq<char>
    decreases n,
{
    if n < 10 {
        seq![spec_digit_char(n)]
    } else {
        spec_u64_dec(n / 10).push(spec_digit_char(n % 10))
    }
}

fn digit_str(d: u64) -> (r: &'static str)
    requires
        d < 10,
    ensures
        r@ == seq![spec_digit_char(d as nat)],
{
    if d == 0 {
        proof {
            reveal_strlit("0");
            assert("0"@ =~= seq![spec_digit_char(0)]);
        }
        "0"
    } else if d == 1 {
        proof {
            reveal_strlit("1");
            assert("1"@ =~= seq![spec_digit_char(1)]);
        }
        "1"
    } else if d == 2 {
        proof {
            reveal_strlit("2");
            assert("2"@ =~= seq![spec_digit_char(2)]);
        }
        "2"
    } else if d == 3 {
        proof {
            reveal_strlit("3");
            assert("3"@ =~= seq![spec_digit_char(3)]);
        }
        "3"
    } else if d == 4 {
        proof {
            reveal_strlit("4");
            assert("4"@ =~= seq![spec_digit_char(4)]);
        }
        "4"
    } else if d == 5 {
        proof {
            reveal_strlit("5");
            assert("5"@ =~= seq![spec_digit_char(5)]);
        }
        "5"
    } else if d == 6 {
        proof {
            reveal_strlit("6");
            assert("6"@ =~= seq![spec_digit_char(6)]);
        }
        "6"
    } else if d == 7 {
        proof {
            reveal_strlit("7");
            assert("7"@ =~= seq![spec_digit_char(7)]);
        }
        "7"
    } else if d == 8 {
        proof {
            reveal_strlit("8");
            assert("8"@ =~= seq![spec_digit_char(8)]);
        }
        "8"
    } else {
        proof {
            reveal_strlit("9");
            assert("9"@ =~= seq![spec_digit_char(9)]);
        }
        "9"
    }
}

/// Format `n` in decimal.
pub fn u64_to_string(n: u64) -> (s: String)
    ensures
        s@ == spec_u64_dec(n as nat),
    decreases n,
{
    if n < 10 {
        String::from_str(digit_str(n))
    } else {
        let mut s = u64_to_string(n / 10);
        s.append(digit_str(n % 10));
        proof {
            assert(s@ =~= spec_u64_dec(n as nat));
        }
        s
    }
}

/// The decimal spelling of a rational: `n` when the denominator is 1,
/// otherwise `n/m`.
pub open spec fn spec_rat_dec(r: Rat) -> Seq<char> {
    if r.den == 1 {
        spec_u64_dec(r.num as nat)
    } else {
        spec_u64_dec(r.num as nat) + seq!['/'] + spec_u64_dec(r.den as nat)
    }
}

/// Format a rational as `spec_rat_dec` spells it.
pub fn rat_to_string(r: &Rat) -> (s: String)
    ensures
        s@ == spec_rat_dec(*r),
{
    if r.den == 1 {
        u64_to_string(r.num)
    } else {
        let mut s = u64_to_string(r.num);
        proof {
            reveal_strlit("/");
            assert("/"@ =~= seq!['/']);
        }
        s.append("/");
        let d = u64_to_string(r.den);
        s.append(d.as_str());
        proof {
            assert(s@ =~= spec_rat_dec(*r));
        }
        s
    }
}

/// Fold a digit string into a value, left to right; `None` at the first
/// character that is not a digit.
pub open spec fn spec_digits_fold(s: Seq<char>, acc: nat) -> Option<nat>
    decreases s.len(),
{
    if s.len() == 0 {
        Some(acc)
    } else if is_digit(s[0]) {
        spec_digits_fold(s.drop_first(), acc * 10 + digit_val(s[0]))
    } else {
        None
    }
}

/// A successful fold never shrinks below its accumulator.
pub proof fn lemma_digits_fold_monotone(s: Seq<char>, acc: nat)
    requires
        spec_digits_fold(s, acc) is Some,
    ensures
        spec_digits_fold(s, acc)->Some_0 >= acc,
    decreases s.len(),
{
    if s.len() != 0 {
        lemma_digits_fold_monotone(s.drop_first(), acc * 10 + digit_val(s[0]));
    }
}

/// Parse an unsigned decimal integer: one or more digits whose value fits
/// in `u64`.
pub open spec fn spec_parse_u64(s: Seq<char>) -> Option<u64> {
    if s.len() == 0 {
        None
    } else {
        match spec_digits_fold(s, 0) {
            Some(v) => if v <= u64::MAX {
                Some(v as u64)
            } else {
                None
            },
            None => None,
        }
    }
}

/// Parse the character range `[from, to)` of `s` as an unsigned decimal
/// integer, mirroring `spec_parse_u64`.
pub fn parse_u64_range(s: &str, from: usize, to: usize) -> (r: Option<u64>)
    requires
        from <= to <= s@.len(),
    ensures
        r == spec_parse_u64(s@.subrange(from as int, to as int)),
{
    let ghost sub = s@.subrange(from as int, to as int);
    if from == to {
        return None;
    }
    let mut i: usize = from;
    let mut acc: u64 = 0;
    while i < to
        invariant
            from <= i <= to <= s@.len(),
            sub == s@.subrange(from as int, to as int),
            spec_digits_fold(sub, 0) == spec_digits_fold(
                s@.subrange(i as int, to as int),
                acc as nat,
            ),
        decreases to - i,
    {
        let ghost rest = s@.subrange(i as int, to as int);
        let c = s.get_char(i);
        let u = c as u32;
        if u < 48 || u > 57 {
            return None;
        }
        let d = (u - 48) as u64;
        proof {
            assert(rest[0] == c);
            assert(rest.drop_first() =~= s@.subrange(i as int + 1, to as int));
        }
        if acc > (u64::MAX - d) / 10 {
            proof {
                assert(acc as nat * 10 + d as nat > u64::MAX) by (nonlinear_arith)
                    requires
                        acc as nat > (u64::MAX - d as nat) / 10,
                        d < 10,
                ;
                if spec_digits_fold(rest.drop_first(), acc as nat * 10 + d as nat) is Some {
                    lemma_digits_fold_monotone(rest.drop_first(), acc as nat * 10 + d as nat);
                }
            }
            return None;
        }
        proof {
            assert(acc as nat * 10 + d as nat <= u64::MAX) by (nonlinear_arith)
                requires
                    acc as nat <= (u64::MAX - d as nat) / 10,
                    d < 10,
            ;
        }
        acc = acc * 10 + d;
        i = i + 1;
    }
    proof {
        assert(s@.subrange(to as int, to as int) =~= Seq::<char>::empty());
    }
    Some(acc)
}

/// Position of the first occurrence of `c` in `s`.
pub open spec fn spec_find_char(s: Seq<char>, c: char) -> Option<int>
    decreases s.len(),
{
    if s.len() == 0 {
        None
    } else if s[0] == c {
        Some(0)
    } else {
        match spec_find_char(s.drop_first(), c) {
            Some(i) => Some(i + 1),
            None => None,
        }
    }
}

proof fn lemma_find_char_props(s: Seq<char>, c: char)
    ensures
        match spec_find_char(s, c) {
            Some(i) => 0 <= i < s.len() && s[i] == c && forall|j: int| 0 <= j < i ==> s[j] != c,
            None => forall|j: int| 0 <= j < s.len() ==> s[j] != c,
        },
    decreases s.len(),
{
    if s.len() != 0 && s[0] != c {
        lemma_find_char_props(s.drop_first(), c);
        assert(forall|j: int| 1 <= j < s.len() ==> s[j] == s.drop_first()[j - 1]);
    }
}

/// Find the first occurrence of an ASCII character, mirroring
/// `spec_find_char`.
fn find_char(s: &str, c: char) -> (r: Option<usize>)
    ensures
        match r {
            Some(i) => spec_find_char(s@, c) == Some(i as int),
            None => spec_find_char(s@, c) is None,
        },
{
    let n = s.unicode_len();
    let mut i: usize = 0;
    while i < n
        invariant
            n == s@.len(),
            i <= n,
            forall|j: int| 0 <= j < i ==> s@[j] != c,
        decreases n - i,
    {
        if s.get_char(i) == c {
            proof {
                lemma_find_char_props(s@, c);
                // the first occurrence cannot be before i, nor after it
                if spec_find_char(s@, c) is Some {
                    let k = spec_find_char(s@, c)->Some_0;
                    if k < i {
                        assert(s@[k] != c);
                    }
                    if k > i {
                        assert(s@[i as int] != c);
                    }
                }
            }
            return Some(i);
        }
        i = i + 1;
    }
    proof {
        lemma_find_char_props(s@, c);
        if spec_find_char(s@, c) is Some {
            let k = spec_find_char(s@, c)->Some_0;
            assert(s@[k] != c);
        }
    }
    None
}

/// Ten to the `k`-th power.
pub open spec fn spec_pow10(k: nat) -> nat
    decreases k,
{
    if k == 0 {
        1
    } else {
        10 * spec_pow10((k - 1) as nat)
    }
}

fn pow10_checked(k: usize) -> (r: Option<u64>)
    ensures
        match r {
            Some(v) => v as nat == spec_pow10(k as nat),
            None => spec_pow10(k as nat) > u64::MAX,
        },
{
    let mut v: u64 = 1;
    let mut i: usize = 0;
    while i < k
        invariant
            i <= k,
            v as nat == spec_pow10(i as nat),
        decreases k - i,
    {
        if v > u64::MAX / 10 {
            proof {
                lemma_pow10_monotone(i as nat + 1, k as nat);
            }
            return None;
        }
        v = v * 10;
        i = i + 1;
    }
    Some(v)
}

proof fn lemma_pow10_monotone(a: nat, b: nat)
    requires
        a <= b,
    ensures
        spec_pow10(a) <= spec_pow10(b),
    decreases b,
{
    if a < b {
        lemma_pow10_monotone(a, (b - 1) as nat);
    }
}

/// Parse a positive number: `n`, `n.f` (a decimal) or `n/m` (a fraction
/// with a nonzero denominator). `None` on any other shape or on overflow.
pub open spec fn spec_parse_rat(s: Seq<char>) -> Option<Rat> {
    match spec_find_char(s, '/') {
        Some(i) => match (spec_parse_u64(s.subrange(0, i)), spec_parse_u64(
            s.subrange(i + 1, s.len() as int),
        )) {
            (Some(n), Some(m)) => if m >= 1 {
                Some(Rat { num: n, den: m })
            } else {
                None
            },
            _ => None,
        },
        None => match spec_find_char(s, '.') {
            Some(i) => {
                let fl = s.len() - i - 1;
                match (spec_parse_u64(s.subrange(0, i)), spec_parse_u64(
                    s.subrange(i + 1, s.len() as int),
                )) {
                    (Some(n), Some(f)) => {
                        let p = spec_pow10(fl as nat);
                        if p <= u64::MAX && n * p + f <= u64::MAX {
                            Some(Rat { num: (n * p + f) as u64, den: p as u64 })
                        } else {
                            None
                        }
                    },
                    _ => None,
                }
            },
            None => match spec_parse_u64(s) {
                Some(v) => Some(Rat { num: v, den: 1 }),
                None => None,
            },
        },
    }
}

/// Parse a number, mirroring `spec_parse_rat`; the result is well formed.
pub fn parse_rat(s: &str) -> (r: Option<Rat>)
    ensures
        r == spec_parse_rat(s@),
        r is Some ==> r->Some_0.wf(),
{
    let n = s.unicode_len();
    proof {
        lemma_find_char_props(s@, '/');
        lemma_find_char_props(s@, '.');
        assert(s@.subrange(0, n as int) =~= s@);
    }
    if let Some(i) = find_char(s, '/') {
        let num = parse_u64_range(s, 0, i);
        let den = parse_u64_range(s, i + 1, n);
        match (num, den) {
            (Some(nv), Some(mv)) => if mv >= 1 {
                Some(Rat { num: nv, den: mv })
            } else {
                None
            },
            _ => None,
        }
    } else if let Some(i) = find_char(s, '.') {
        let ip = parse_u64_range(s, 0, i);
        let fp = parse_u64_range(s, i + 1, n);
        match (ip, fp) {
            (Some(nv), Some(fv)) => {
                match pow10_checked(n - i - 1) {
                    Some(p) => {
                        proof {
                            lemma_pow10_monotone(0, (n - i - 1) as nat);
                        }
                        match nv.checked_mul(p) {
                            Some(np) => match np.checked_add(fv) {
                                Some(total) => Some(Rat { num: total, den: p }),
                                None => None,
                            },
                            None => {
                                proof {
                                    assert(nv as nat * p as nat > u64::MAX) by (nonlinear_arith)
                                        requires
                                            nv as nat * p as nat > u64::MAX as nat,
                                    ;
                                }
                                None
                            },
                        }
                    },
                    None => None,
                }
            },
            _ => None,
        }
    } else {
        match parse_u64_range(s, 0, n) {
            Some(v) => Some(Rat { num: v, den: 1 }),
            None => None,
        }
    }
}

} // verus!
