use vstd::prelude::*;
use vstd::string::StrSliceExecFns;

verus! {

pub open spec fn is_digit(c: char) -> bool {
    '0' <= c && c <= '9'
}

/// The number a digit run denotes.
pub open spec fn digits_val(s: Seq<char>) -> int
    decreases s.len(),
{
    if s.len() == 0 {
        0
    } else {
        digits_val(s.drop_last()) * 10 + (s.last() as int - '0' as int)
    }
}

/// A dice expression `<digits>d<digits>` occupies [p, i2) of s, with
/// both digit runs maximal: the count run ends exactly at the 'd' and
/// the sides run ends at the end of the string or at a non-digit.
pub open spec fn match_frame(s: Seq<char>, p: int, i1: int, i2: int) -> bool {
    &&& 0 <= p < i1
    &&& i1 + 1 < i2 <= s.len()
    &&& i1 < s.len()
    &&& forall|k: int| p <= k < i1 ==> is_digit(#[trigger] s[k])
    &&& s[i1] == 'd'
    &&& forall|k: int| i1 + 1 <= k < i2 ==> is_digit(#[trigger] s[k])
    &&& (i2 == s.len() || !is_digit(s[i2]))
}

/// A bonus group `<sign><digits>` continues a dice expression at i2,
/// its digit run again maximal.
pub open spec fn bonus_frame(s: Seq<char>, i2: int, i3: int) -> bool {
    &&& 0 <= i2
    &&& i2 + 1 < i3 <= s.len()
    &&& forall|k: int| i2 + 1 <= k < i3 ==> is_digit(#[trigger] s[k])
    &&& (i3 == s.len() || !is_digit(s[i3]))
}

/// The bonus denoted by whatever follows the sides run at i2: the
/// signed value of the greedy bonus group when one starts there, and
/// zero otherwise.
pub open spec fn bonus_part(s: Seq<char>, i2: int, bonus: int) -> bool {
    if 0 <= i2 && i2 < s.len() && (s[i2] == '+' || s[i2] == '-') && i2 + 1 < s.len() && is_digit(
        s[i2 + 1],
    ) {
        exists|i3: int|
            #[trigger] bonus_frame(s, i2, i3) && bonus == if s[i2] == '+' {
                digits_val(s.subrange(i2 + 1, i3))
            } else {
                -digits_val(s.subrange(i2 + 1, i3))
            }
    } else {
        bonus == 0
    }
}

/// A dice expression starting at position p denotes the roll
/// (n, die, bonus).
pub open spec fn dice_match_at(s: Seq<char>, p: int, n: int, die: int, bonus: int) -> bool {
    exists|i1: int, i2: int|
        #[trigger] match_frame(s, p, i1, i2) && n == digits_val(s.subrange(p, i1)) && die
            == digits_val(s.subrange(i1 + 1, i2)) && bonus_part(s, i2, bonus)
}

/// Some dice expression starts at position p.
pub open spec fn match_starts_at(s: Seq<char>, p: int) -> bool {
    exists|i1: int, i2: int| #[trigger] match_frame(s, p, i1, i2)
}

/// (n, die, bonus) is the leftmost dice expression of s: it matches at
/// some position before which no expression starts.
pub open spec fn first_match_result(s: Seq<char>, n: int, die: int, bonus: int) -> bool {
    exists|p: int|
        #[trigger] dice_match_at(s, p, n, die, bonus) && (forall|q: int|
            0 <= q < p ==> !#[trigger] match_starts_at(s, q))
}

/// Packaging the witness: a match at p with nothing earlier is the
/// leftmost match.
proof fn lemma_first_match_intro(s: Seq<char>, p: int, n: int, die: int, bonus: int)
    requires
        dice_match_at(s, p, n, die, bonus),
        forall|q: int| 0 <= q < p ==> !#[trigger] match_starts_at(s, q),
    ensures
        first_match_result(s, n, die, bonus),
{
}

proof fn lemma_digits_val_nonneg(s: Seq<char>)
    requires
        forall|k: int| 0 <= k < s.len() ==> is_digit(#[trigger] s[k]),
    ensures
        digits_val(s) >= 0,
    decreases s.len(),
{
    if s.len() > 0 {
        assert(forall|k: int|
            0 <= k < s.drop_last().len() ==> is_digit(#[trigger] s.drop_last()[k]));
        lemma_digits_val_nonneg(s.drop_last());
        assert(digits_val(s.drop_last()) * 10 >= 0) by (nonlinear_arith)
            requires
                digits_val(s.drop_last()) >= 0,
        ;
    }
}

/// The maximal digit run starting at `from` ends at i: everything before
/// is a digit and the run stops at the end or at a non-digit.
pub open spec fn digit_run(s: Seq<char>, from: int, i: int) -> bool {
    &&& from <= i <= s.len()
    &&& forall|k: int| from <= k < i ==> is_digit(#[trigger] s[k])
    &&& (i < s.len() ==> !is_digit(s[i]))
}

fn exec_is_digit(c: char) -> (r: bool)
    ensures
        r == is_digit(c),
{
    '0' <= c && c <= '9'
}

/// Reads the maximal digit run of s starting at `from`, returning the
/// position after the run and, when it fits an i32, the value it
/// denotes.
fn scan_digits(s: &str, from: usize, len: usize) -> (r: (usize, i32))
    requires
        s@.len() == len,
        from <= len,
    ensures
        from <= r.0 <= len,
        digit_run(s@, from as int, r.0 as int),
        digits_val(s@.subrange(from as int, r.0 as int)) <= i32::MAX ==> r.1 == digits_val(
            s@.subrange(from as int, r.0 as int),
        ),
        0 <= r.1,
{
    let mut i = from;
    let mut val: i32 = 0;
    let mut saturated = false;
    while i < len && exec_is_digit(s.get_char(i))
        invariant
            s@.len() == len,
            from <= i <= len,
            forall|k: int| from <= k < i ==> is_digit(#[trigger] s@[k]),
            0 <= val,
            !saturated ==> val == digits_val(s@.subrange(from as int, i as int)),
            saturated ==> digits_val(s@.subrange(from as int, i as int)) > i32::MAX,
        decreases len - i,
    {
        let c = s.get_char(i);
        let d = (c as u32 - '0' as u32) as i32;
        let limit = (i32::MAX - d) / 10;
        proof {
            assert(s@.subrange(from as int, i as int + 1).drop_last() =~= s@.subrange(
                from as int,
                i as int,
            ));
            assert(s@.subrange(from as int, i as int + 1).last() == s@[i as int]);
            assert(forall|k: int|
                0 <= k < s@.subrange(from as int, i as int).len() ==> is_digit(
                    #[trigger] s@.subrange(from as int, i as int)[k],
                ));
            lemma_digits_val_nonneg(s@.subrange(from as int, i as int));
            if saturated {
                assert(digits_val(s@.subrange(from as int, i as int)) * 10 > i32::MAX) by (
                nonlinear_arith)
                    requires
                        digits_val(s@.subrange(from as int, i as int)) > i32::MAX,
                ;
            }
        }
        if !saturated && val <= limit {
            proof {
                assert(val * 10 + d <= i32::MAX) by (nonlinear_arith)
                    requires
                        0 <= d <= 9,
                        0 <= val,
                        val <= (i32::MAX - d) / 10,
                        limit == (i32::MAX - d) / 10,
                ;
            }
            val = val * 10 + d;
        } else {
            proof {
                if !saturated {
                    assert(val * 10 + d > i32::MAX) by (nonlinear_arith)
                        requires
                            0 <= d <= 9,
                            0 <= val,
                            val > (i32::MAX - d) / 10,
                            limit == (i32::MAX - d) / 10,
                    ;
                    assert(val as int * 10 + (s@[i as int] as int - '0' as int) > i32::MAX);
                }
            }
            saturated = true;
        }
        i = i + 1;
    }
    (i, val)
}

/// Scans the string for the first embedded dice expression, such as
/// `3d6` or `1d8+2` anywhere in the input, and returns its numbers; a
/// string holding no dice expression yields the default roll of one
/// four-sided die.  When several expressions occur, the leftmost wins.
pub fn parse_dice_string(dice: &str) -> (r: (i32, i32, i32))
    requires
        forall|p: int, i1: int, i2: int|
            #[trigger] match_frame(dice@, p, i1, i2) ==> digits_val(dice@.subrange(p, i1))
                <= i32::MAX && digits_val(dice@.subrange(i1 + 1, i2)) <= i32::MAX,
        forall|i2: int, i3: int|
            #[trigger] bonus_frame(dice@, i2, i3) ==> digits_val(dice@.subrange(i2 + 1, i3))
                <= i32::MAX,
    ensures
        (exists|p: int| #[trigger] match_starts_at(dice@, p)) ==> first_match_result(
            dice@,
            r.0 as int,
            r.1 as int,
            r.2 as int,
        ),
        (forall|p: int| !#[trigger] match_starts_at(dice@, p)) ==> r == (1i32, 4i32, 0i32),
{
    let len = dice.unicode_len();
    let mut p: usize = 0;
    while p < len
        invariant
            dice@.len() == len,
            p <= len,
            forall|q: int| 0 <= q < p ==> !#[trigger] match_starts_at(dice@, q),
            forall|pp: int, i1: int, i2: int|
                #[trigger] match_frame(dice@, pp, i1, i2) ==> digits_val(dice@.subrange(pp, i1))
                    <= i32::MAX && digits_val(dice@.subrange(i1 + 1, i2)) <= i32::MAX,
            forall|i2: int, i3: int|
                #[trigger] bonus_frame(dice@, i2, i3) ==> digits_val(dice@.subrange(i2 + 1, i3))
                    <= i32::MAX,
        decreases len - p,
    {
        if exec_is_digit(dice.get_char(p)) {
            let (i1, n_val) = scan_digits(dice, p, len);
            let mut matched = false;
            if i1 < len {
                if dice.get_char(i1) == 'd' && i1 + 1 < len && exec_is_digit(dice.get_char(i1 + 1)) {
                    matched = true;
                }
            }
            if matched {
                let (i2, die_val) = scan_digits(dice, i1 + 1, len);
                proof {
                    assert(match_frame(dice@, p as int, i1 as int, i2 as int));
                }
                let mut has_bonus = false;
                if i2 < len {
                    let sc = dice.get_char(i2);
                    if (sc == '+' || sc == '-') && i2 + 1 < len {
                        if exec_is_digit(dice.get_char(i2 + 1)) {
                            has_bonus = true;
                        }
                    }
                }
                if has_bonus {
                    let (i3, b_val) = scan_digits(dice, i2 + 1, len);
                    let sc = dice.get_char(i2);
                    let bonus = if sc == '+' {
                        b_val
                    } else {
                        -b_val
                    };
                    proof {
                        assert(bonus_frame(dice@, i2 as int, i3 as int));
                        assert(bonus_part(dice@, i2 as int, bonus as int));
                        assert(dice_match_at(
                            dice@,
                            p as int,
                            n_val as int,
                            die_val as int,
                            bonus as int,
                        ));
                        assert(forall|q: int|
                            0 <= q < p as int ==> !#[trigger] match_starts_at(dice@, q));
                    }
                    let result = (n_val, die_val, bonus);
                    proof {
                        lemma_first_match_intro(
                            dice@,
                            p as int,
                            result.0 as int,
                            result.1 as int,
                            result.2 as int,
                        );
                        assert(match_starts_at(dice@, p as int));
                    }
                    return result;
                } else {
                    proof {
                        assert(bonus_part(dice@, i2 as int, 0));
                        assert(dice_match_at(dice@, p as int, n_val as int, die_val as int, 0));
                        assert(forall|q: int|
                            0 <= q < p as int ==> !#[trigger] match_starts_at(dice@, q));
                    }
                    let result = (n_val, die_val, 0i32);
                    proof {
                        lemma_first_match_intro(
                            dice@,
                            p as int,
                            result.0 as int,
                            result.1 as int,
                            result.2 as int,
                        );
                        assert(match_starts_at(dice@, p as int));
                    }
                    return result;
                }
            } else {
                // the run [p, i1) reaches no 'd' with digits after it, so
                // no dice expression starts inside it
                proof {
                    assert forall|q: int| p <= q < i1 implies !match_starts_at(dice@, q) by {
                        if match_starts_at(dice@, q) {
                            let (j1, j2) = choose|j1: int, j2: int|
                                #[trigger] match_frame(dice@, q, j1, j2);
                            if j1 < i1 {
                                assert(is_digit(dice@[j1]));
                            } else if j1 > i1 {
                                assert(is_digit(dice@[i1 as int]));
                            } else {
                                assert(dice@[i1 as int] == 'd');
                                assert(i1 < len);
                                assert(j2 > i1 + 1);
                                assert(i1 + 1 < len);
                                assert(is_digit(dice@[i1 as int + 1]));
                            }
                        }
                    }
                }
                p = i1;
            }
        } else {
            proof {
                if match_starts_at(dice@, p as int) {
                    let (j1, j2) = choose|j1: int, j2: int|
                        #[trigger] match_frame(dice@, p as int, j1, j2);
                    assert(is_digit(dice@[p as int]));
                }
            }
            p = p + 1;
        }
    }
    proof {
        assert forall|q: int| !#[trigger] match_starts_at(dice@, q) by {
            if match_starts_at(dice@, q) {
                let (j1, j2) = choose|j1: int, j2: int| #[trigger] match_frame(dice@, q, j1, j2);
                assert(0 <= q < len);
            }
        }
    }
    (1, 4, 0)
}

} // verus!
