use vstd::prelude::*;

verus! {

/// An ASCII decimal digit.
pub open spec fn is_digit(c: char) -> bool {
    48 <= c as int && c as int <= 57
}

/// The numeric value of one digit.
pub open spec fn digit_val(c: char) -> int {
    c as int - 48
}

/// Every character of the sequence is a decimal digit.
pub open spec fn all_digits(s: Seq<char>) -> bool {
    forall|i: int| 0 <= i < s.len() ==> is_digit(s[i])
}

/// The value of a digit sequence read in base ten.
pub open spec fn dec_val(s: Seq<char>) -> int
    decreases s.len(),
{
    if s.len() == 0 {
        0
    } else {
        dec_val(s.drop_last()) * 10 + digit_val(s.last())
    }
}

pub proof fn lemma_dec_val_nonneg(s: Seq<char>)
    requires
        all_digits(s),
    ensures
        dec_val(s) >= 0,
    decreases s.len(),
{
    if s.len() > 0 {
        lemma_dec_val_nonneg(s.drop_last());
    }
}

/// Reading more digits never shrinks the value.
pub proof fn lemma_dec_val_mono(s: Seq<char>, i: int)
    requires
        all_digits(s),
        0 <= i <= s.len(),
    ensures
        dec_val(s) >= dec_val(s.take(i)),
    decreases s.len(),
{
    if i == s.len() {
        assert(s.take(i) =~= s);
    } else {
        assert(s.drop_last().take(i) =~= s.take(i));
        lemma_dec_val_mono(s.drop_last(), i);
        lemma_dec_val_nonneg(s.drop_last());
    }
}

/// What `usize::from_str` accepts and yields: an optional plus sign, then
/// one or more digits whose value fits the type.
pub open spec fn usize_of_spec(s: Seq<char>) -> Option<usize> {
    let b = if s.len() > 0 && s[0] == '+' {
        s.drop_first()
    } else {
        s
    };
    if b.len() > 0 && all_digits(b) && dec_val(b) <= usize::MAX {
        Some(dec_val(b) as usize)
    } else {
        None
    }
}

/// What `i32::from_str` accepts and yields: an optional sign, then one or
/// more digits whose value fits the type.
pub open spec fn i32_of_spec(s: Seq<char>) -> Option<i32> {
    if s.len() > 0 && s[0] == '-' {
        let b = s.drop_first();
        if b.len() > 0 && all_digits(b) && dec_val(b) <= 0x8000_0000 {
            Some((-dec_val(b)) as i32)
        } else {
            None
        }
    } else {
        let b = if s.len() > 0 && s[0] == '+' {
            s.drop_first()
        } else {
            s
        };
        if b.len() > 0 && all_digits(b) && dec_val(b) <= 0x7fff_ffff {
            Some(dec_val(b) as i32)
        } else {
            None
        }
    }
}

/// Whether the character is a decimal digit.
pub fn is_digit_exec(c: char) -> (r: bool)
    ensures
        r == is_digit(c),
{
    let v = c as u32;
    48 <= v && v <= 57
}

/// Reads the digits of `s` from position `from` to the end; yields their
/// value when they are one or more digits whose value fits in `usize`.
#[verifier::loop_isolation(false)]
fn parse_digits(s: &str, from: usize) -> (r: Option<usize>)
    requires
        from <= s@.len(),
    ensures
        ({
            let b = s@.skip(from as int);
            match r {
                Some(v) => b.len() > 0 && all_digits(b) && dec_val(b) == v,
                None => !(b.len() > 0 && all_digits(b) && dec_val(b) <= usize::MAX),
            }
        }),
{
    let ghost b = s@.skip(from as int);
    let n = s.unicode_len();
    if from == n {
        return None;
    }
    let mut acc: usize = 0;
    let mut i: usize = from;
    while i < n
        invariant
            from <= i <= n,
            n == s@.len(),
            b == s@.skip(from as int),
            b.len() == n - from,
            all_digits(b.take(i - from)),
            acc == dec_val(b.take(i - from)),
        decreases n - i,
    {
        let c = s.get_char(i);
        proof {
            assert(b[i - from] == s@[i as int]);
            assert(b.take(i - from + 1).drop_last() =~= b.take(i - from));
            assert(b.take(i - from + 1).last() == b[i - from]);
        }
        if !is_digit_exec(c) {
            proof {
                assert(!is_digit(b[i - from]));
            }
            return None;
        }
        let d = (c as u32 - 48) as usize;
        let widened = match acc.checked_mul(10) {
            Some(m) => m.checked_add(d),
            None => None,
        };
        match widened {
            Some(v) => {
                acc = v;
            },
            None => {
                proof {
                    let k = i - from + 1;
                    assert(dec_val(b.take(k)) == acc * 10 + d);
                    assert(acc * 10 + d > usize::MAX);
                    if all_digits(b) {
                        lemma_dec_val_mono(b, k);
                    }
                }
                return None;
            },
        }
        i = i + 1;
    }
    proof {
        assert(b.take(n - from) =~= b);
    }
    Some(acc)
}

/// Reads a whole token as `usize::from_str` would.
pub fn parse_usize(s: &str) -> (r: Option<usize>)
    ensures
        r == usize_of_spec(s@),
{
    let n = s.unicode_len();
    let start: usize = if n > 0 && s.get_char(0) == '+' {
        1
    } else {
        0
    };
    proof {
        if n > 0 && s@[0] == '+' {
            assert(s@.drop_first() =~= s@.skip(1));
        } else {
            assert(s@.skip(0) =~= s@);
        }
    }
    parse_digits(s, start)
}

/// Reads a whole token as `i32::from_str` would.
pub fn parse_i32(s: &str) -> (r: Option<i32>)
    ensures
        r == i32_of_spec(s@),
{
    let n = s.unicode_len();
    let negative = n > 0 && s.get_char(0) == '-';
    let start: usize = if n > 0 && (s.get_char(0) == '+' || s.get_char(0) == '-') {
        1
    } else {
        0
    };
    proof {
        if start == 1 {
            assert(s@.drop_first() =~= s@.skip(1));
        } else {
            assert(s@.skip(0) =~= s@);
        }
    }
    let mag = parse_digits(s, start);
    proof {
        let b = s@.skip(start as int);
        if mag is None && all_digits(b) && b.len() > 0 {
            lemma_dec_val_nonneg(b);
            assert(dec_val(b) > usize::MAX);
        }
    }
    match mag {
        None => None,
        Some(v) => {
            if negative {
                if v <= 0x7fff_ffff {
                    Some(-(v as i32))
                } else if v == 0x8000_0000 {
                    Some(i32::MIN)
                } else {
                    None
                }
            } else {
                if v <= 0x7fff_ffff {
                    Some(v as i32)
                } else {
                    None
                }
            }
        },
    }
}

/// How many dots the sequence holds.
pub open spec fn dot_count(s: Seq<char>) -> int
    decreases s.len(),
{
    if s.len() == 0 {
        0
    } else {
        dot_count(s.drop_last()) + if s.last() == '.' {
            1int
        } else {
            0int
        }
    }
}

/// The mantissa of a numeric token: digits with at most one dot among
/// them, and at least one digit.
pub open spec fn mantissa_ok(s: Seq<char>) -> bool {
    &&& forall|i: int| 0 <= i < s.len() ==> (is_digit(s[i]) || s[i] == '.')
    &&& dot_count(s) <= 1
    &&& exists|i: int| 0 <= i < s.len() && is_digit(s[i])
}

/// The exponent of a numeric token: an optional sign, then one or more
/// digits.
pub open spec fn exponent_ok(s: Seq<char>) -> bool {
    let b = if s.len() > 0 && (s[0] == '+' || s[0] == '-') {
        s.drop_first()
    } else {
        s
    };
    b.len() > 0 && all_digits(b)
}

pub open spec fn is_exp_char(c: char) -> bool {
    c == 'e' || c == 'E'
}

/// A number: a mantissa, optionally followed by an exponent marker and an
/// exponent.
pub open spec fn number_ok(s: Seq<char>) -> bool {
    ||| mantissa_ok(s)
    ||| exists|i: int|
        0 <= i < s.len() && is_exp_char(s[i]) && mantissa_ok(s.take(i)) && exponent_ok(
            s.skip(i + 1),
        )
}

/// The two characters match up to ASCII case; `lower` is a lower-case
/// letter.
pub open spec fn eq_nocase(c: char, lower: char) -> bool {
    c == lower || c as int == lower as int - 32
}

/// The sequence spells the word, up to ASCII case.
pub open spec fn word_nocase(s: Seq<char>, w: Seq<char>) -> bool {
    s.len() == w.len() && forall|i: int| 0 <= i < s.len() ==> eq_nocase(s[i], #[trigger] w[i])
}

pub open spec fn inf_word() -> Seq<char> {
    seq!['i', 'n', 'f']
}

pub open spec fn infinity_word() -> Seq<char> {
    seq!['i', 'n', 'f', 'i', 'n', 'i', 't', 'y']
}

pub open spec fn nan_word() -> Seq<char> {
    seq!['n', 'a', 'n']
}

/// A token that `f64::from_str` accepts, following the grammar its
/// documentation gives: an optional sign, then one of the special words or
/// a number.
pub open spec fn float_token_ok(s: Seq<char>) -> bool {
    let b = if s.len() > 0 && (s[0] == '+' || s[0] == '-') {
        s.drop_first()
    } else {
        s
    };
    ||| word_nocase(b, inf_word())
    ||| word_nocase(b, infinity_word())
    ||| word_nocase(b, nan_word())
    ||| number_ok(b)
}

fn eq_nocase_exec(c: char, lower: char) -> (r: bool)
    ensures
        r == eq_nocase(c, lower),
{
    c == lower || (c as u32) + 32 == (lower as u32)
}

/// Whether `s`, from position `from` on, spells `w` up to ASCII case.
#[verifier::loop_isolation(false)]
fn word_nocase_exec(s: &str, from: usize, w: &Vec<char>) -> (r: bool)
    requires
        from <= s@.len(),
    ensures
        r == word_nocase(s@.skip(from as int), w@),
{
    let ghost b = s@.skip(from as int);
    let n = s.unicode_len();
    if n - from != w.len() {
        return false;
    }
    let mut i: usize = 0;
    while i < w.len()
        invariant
            0 <= i <= w@.len(),
            n == s@.len(),
            from + w@.len() == n,
            b == s@.skip(from as int),
            b.len() == w@.len(),
            forall|j: int| 0 <= j < i ==> eq_nocase(b[j], #[trigger] w@[j]),
        decreases w@.len() - i,
    {
        let c = s.get_char(from + i);
        proof {
            assert(b[i as int] == s@[from + i]);
        }
        if !eq_nocase_exec(c, w[i]) {
            return false;
        }
        i = i + 1;
    }
    true
}

/// Whether the token is one that `f64::from_str` accepts.
#[verifier::loop_isolation(false)]
#[verifier::rlimit(80)]
pub fn is_float_token(s: &str) -> (r: bool)
    ensures
        r == float_token_ok(s@),
{
    let n = s.unicode_len();
    let start: usize = if n > 0 && (s.get_char(0) == '+' || s.get_char(0) == '-') {
        1
    } else {
        0
    };
    let ghost b = s@.skip(start as int);
    proof {
        if start == 1 {
            assert(s@.drop_first() =~= s@.skip(1));
        } else {
            assert(s@.skip(0) =~= s@);
        }
    }
    let inf: Vec<char> = vec!['i', 'n', 'f'];
    let infinity: Vec<char> = vec!['i', 'n', 'f', 'i', 'n', 'i', 't', 'y'];
    let nan: Vec<char> = vec!['n', 'a', 'n'];
    proof {
        assert(inf@ =~= inf_word());
        assert(infinity@ =~= infinity_word());
        assert(nan@ =~= nan_word());
    }
    if word_nocase_exec(s, start, &inf) || word_nocase_exec(s, start, &infinity)
        || word_nocase_exec(s, start, &nan) {
        return true;
    }
    // scan the mantissa, up to the first exponent marker
    let mut i: usize = start;
    let mut seen_digit = false;
    let mut dots: usize = 0;
    while i < n && !(s.get_char(i) == 'e' || s.get_char(i) == 'E')
        invariant
            start <= i <= n,
            n == s@.len(),
            b == s@.skip(start as int),
            b.len() == n - start,
            forall|j: int| 0 <= j < i - start ==> (is_digit(b[j]) || b[j] == '.'),
            forall|j: int| 0 <= j < i - start ==> !is_exp_char(b[j]),
            seen_digit == exists|j: int| 0 <= j < i - start && is_digit(b[j]),
            dots == dot_count(b.take(i - start)),
            dots <= i - start,
            !word_nocase(b, inf_word()),
            !word_nocase(b, infinity_word()),
            !word_nocase(b, nan_word()),
        decreases n - i,
    {
        let c = s.get_char(i);
        proof {
            assert(b[i - start] == s@[i as int]);
            assert(b.take(i - start + 1).drop_last() =~= b.take(i - start));
            assert(b.take(i - start + 1).last() == b[i - start]);
        }
        if is_digit_exec(c) {
            seen_digit = true;
            proof {
                assert(is_digit(b[i - start]));
            }
        } else if c == '.' {
            dots = dots + 1;
        } else {
            // a character that fits no part of the grammar
            proof {
                let k = i - start;
                assert(!is_digit(b[k]) && b[k] != '.' && !is_exp_char(b[k]));
                assert(!mantissa_ok(b));
                assert forall|t: int|
                    0 <= t < b.len() && is_exp_char(b[t]) implies !mantissa_ok(b.take(t)) by {
                    assert(t > k);
                    assert(b.take(t)[k] == b[k]);
                }
                assert(!number_ok(b));
            }
            return false;
        }
        i = i + 1;
    }
    let ghost k = i - start;
    let mantissa_good = seen_digit && dots <= 1;
    proof {
        let m = b.take(k as int);
        assert forall|j: int| 0 <= j < k implies m[j] == b[j] by {}
        assert(m.len() == k);
        if seen_digit {
            let j0 = choose|j0: int| 0 <= j0 < k && is_digit(b[j0]);
            assert(is_digit(m[j0]));
        }
        if exists|j: int| 0 <= j < m.len() && is_digit(m[j]) {
            let j0 = choose|j0: int| 0 <= j0 < m.len() && is_digit(m[j0]);
            assert(is_digit(b[j0]));
        }
        assert(mantissa_good == mantissa_ok(m));
        if i == n {
            assert(b.take(k as int) =~= b);
            assert(mantissa_good == mantissa_ok(b));
            assert(number_ok(b) == mantissa_ok(b));
        } else {
            assert(b[k as int] == s@[i as int]);
            assert(is_exp_char(b[k as int]));
            assert(!mantissa_ok(b)) by {
                assert(!is_digit(b[k as int]) && b[k as int] != '.');
            }
        }
    }
    if i == n {
        return mantissa_good;
    }
    if !mantissa_good {
        proof {
            assert forall|t: int|
                0 <= t < b.len() && is_exp_char(b[t]) implies !mantissa_ok(b.take(t)) by {
                if t < k {
                    assert(!is_exp_char(b[t]));
                } else if t == k {
                } else {
                    assert(b.take(t)[k as int] == b[k as int]);
                    assert(!is_digit(b.take(t)[k as int]) && b.take(t)[k as int] != '.');
                }
            }
            assert(!number_ok(b));
        }
        return false;
    }
    // scan the exponent
    let estart = i + 1;
    let ghost e = b.skip(k + 1);
    proof {
        assert(e =~= s@.skip(estart as int));
    }
    let estart2: usize = if estart < n && (s.get_char(estart) == '+' || s.get_char(estart)
        == '-') {
        estart + 1
    } else {
        estart
    };
    proof {
        if estart2 == estart + 1 {
            assert(e.drop_first() =~= s@.skip(estart2 as int));
        }
    }
    let mut j = estart2;
    let mut ok = j < n;
    let ghost ebody = s@.skip(estart2 as int);
    while j < n && ok
        invariant
            estart2 <= j <= n,
            n == s@.len(),
            ebody == s@.skip(estart2 as int),
            ebody.len() == n - estart2,
            ok ==> estart2 < n,
            ok == (estart2 < n && all_digits(ebody.take(j - estart2))),
            !ok ==> !(ebody.len() > 0 && all_digits(ebody)),
        decreases n - j,
    {
        let c = s.get_char(j);
        proof {
            assert(ebody[j - estart2] == s@[j as int]);
            assert(ebody.take(j - estart2 + 1).drop_last() =~= ebody.take(j - estart2));
            assert(ebody.take(j - estart2 + 1).last() == ebody[j - estart2]);
        }
        if !is_digit_exec(c) {
            proof {
                assert(!is_digit(ebody[j - estart2]));
            }
            ok = false;
        }
        j = j + 1;
    }
    proof {
        if ok {
            assert(ebody.take(n - estart2) =~= ebody);
        }
        assert(ok == exponent_ok(e));
        if ok {
            assert(number_ok(b)) by {
                assert(is_exp_char(b[k as int]) && mantissa_ok(b.take(k as int)) && exponent_ok(
                    b.skip(k + 1),
                ));
            }
        } else {
            assert forall|t: int|
                0 <= t < b.len() && is_exp_char(b[t]) implies !(mantissa_ok(b.take(t))
                && exponent_ok(b.skip(t + 1))) by {
                if t < k {
                    assert(!is_exp_char(b[t]));
                } else if t == k {
                } else {
                    assert(b.take(t)[k as int] == b[k as int]);
                    assert(!is_digit(b.take(t)[k as int]) && b.take(t)[k as int] != '.');
                }
            }
            assert(!mantissa_ok(b)) by {
                assert(!is_digit(b[k as int]) && b[k as int] != '.');
            }
            assert(!number_ok(b));
        }
    }
    ok
}

} // verus!
