//! Ordered rewrites that bring an annotation into a canonical wording.
use vstd::prelude::*;

use crate::text::{
    at_ci, at_ci_exec, boundary_after, boundary_before, chars_of, digit_run, digit_run_exec,
    is_alpha, is_alpha_exec, is_word_exec,
};

verus! {

/// A rewrite applied at each position of the text, left to right, on
/// matches that do not overlap.
#[derive(Clone, Copy, Debug, PartialEq, Eq, Structural)]
pub enum Rule {
    /// `April` as a whole word becomes `Apr`.
    April,
    /// `, ` and a four-digit year is dropped.
    Year,
    /// ` & `, `, and ` and ` and ` become `, `.
    Conjunction,
    /// `Jul4` becomes `Jul 4`.
    MonthDaySpace,
    /// `Jul 1 Jul 2` becomes `Jul 1, Jul 2`.
    MonthDayComma,
    /// `Jul 1, 2, 3` becomes `Jul 1, Jul 2, Jul 3`.
    ThreeDays,
    /// `Jul 1, 2` becomes `Jul 1, Jul 2`.
    TwoDays,
}

/// Three letters from `i` on.
pub open spec fn letters3(s: Seq<char>, i: int) -> bool {
    0 <= i && i + 3 <= s.len() && is_alpha(s[i]) && is_alpha(s[i + 1]) && is_alpha(s[i + 2])
}

/// Length of a day number of one or two digits at `i`, or 0.
pub open spec fn day_at(s: Seq<char>, i: int) -> int {
    let n = digit_run(s, i) as int;
    if 1 <= n <= 2 {
        n
    } else {
        0
    }
}

/// Position after a separator `, ` or ` ` at `p`, or -1.
pub open spec fn sep_after(s: Seq<char>, p: int) -> int {
    if 0 <= p < s.len() && s[p] == ',' {
        if p + 1 < s.len() && s[p + 1] == ' ' {
            p + 2
        } else {
            -1
        }
    } else if 0 <= p < s.len() && s[p] == ' ' {
        p + 1
    } else {
        -1
    }
}

/// `m` followed by a space and the day number `s[p..p + l]`.
pub open spec fn month_day(m: Seq<char>, s: Seq<char>, p: int, l: int) -> Seq<char> {
    m + seq![' '] + s.subrange(p, p + l)
}

/// What rule `rule` matches at position `i`: how many characters, and what
/// stands in their place.
pub open spec fn rule_match(rule: Rule, s: Seq<char>, i: int) -> Option<(int, Seq<char>)> {
    match rule {
        Rule::April => {
            let n = "april"@.len() as int;
            if 0 <= i < s.len() && is_alpha(s[i]) && boundary_before(s, i) && at_ci(s, i, "april"@)
                && boundary_after(s, i + n) {
                Some((n, "Apr"@))
            } else {
                None
            }
        },
        Rule::Year => {
            if 0 <= i && i + 6 <= s.len() && s[i] == ',' && s[i + 1] == ' ' && digit_run(s, i + 2)
                >= 4 && boundary_after(s, i + 6) {
                Some((6, Seq::<char>::empty()))
            } else {
                None
            }
        },
        Rule::Conjunction => {
            if at_ci(s, i, " & "@) {
                Some((" & "@.len() as int, ", "@))
            } else if at_ci(s, i, ", and "@) {
                Some((", and "@.len() as int, ", "@))
            } else if at_ci(s, i, " and "@) {
                Some((" and "@.len() as int, ", "@))
            } else {
                None
            }
        },
        Rule::MonthDaySpace => {
            let l = day_at(s, i + 3);
            if letters3(s, i) && boundary_before(s, i) && l >= 1 && boundary_after(s, i + 3 + l) {
                Some((3 + l, month_day(s.subrange(i, i + 3), s, i + 3, l)))
            } else {
                None
            }
        },
        Rule::MonthDayComma => {
            let l1 = day_at(s, i + 4);
            let l2 = day_at(s, i + 9 + l1);
            if letters3(s, i) && boundary_before(s, i) && i + 3 < s.len() && s[i + 3] == ' ' && l1
                >= 1 && i + 4 + l1 < s.len() && s[i + 4 + l1] == ' ' && letters3(s, i + 5 + l1)
                && i + 8 + l1 < s.len() && s[i + 8 + l1] == ' ' && l2 >= 1 && boundary_after(
                s,
                i + 9 + l1 + l2,
            ) {
                Some(
                    (
                        9 + l1 + l2,
                        s.subrange(i, i + 4 + l1) + ", "@ + s.subrange(i + 5 + l1, i + 9 + l1 + l2),
                    ),
                )
            } else {
                None
            }
        },
        Rule::ThreeDays => {
            let m = s.subrange(i, i + 3);
            let l1 = day_at(s, i + 4);
            let q1 = sep_after(s, i + 4 + l1);
            let l2 = day_at(s, q1);
            let q2 = sep_after(s, q1 + l2);
            let l3 = day_at(s, q2);
            if letters3(s, i) && boundary_before(s, i) && i + 3 < s.len() && s[i + 3] == ' ' && l1
                >= 1 && q1 >= 0 && l2 >= 1 && q2 >= 0 && l3 >= 1 && boundary_after(s, q2 + l3) {
                Some(
                    (
                        q2 + l3 - i,
                        month_day(m, s, i + 4, l1) + ", "@ + month_day(m, s, q1, l2) + ", "@
                            + month_day(m, s, q2, l3),
                    ),
                )
            } else {
                None
            }
        },
        Rule::TwoDays => {
            let m = s.subrange(i, i + 3);
            let l1 = day_at(s, i + 4);
            let q1 = sep_after(s, i + 4 + l1);
            let l2 = day_at(s, q1);
            if letters3(s, i) && boundary_before(s, i) && i + 3 < s.len() && s[i + 3] == ' ' && l1
                >= 1 && q1 >= 0 && l2 >= 1 && boundary_after(s, q1 + l2) {
                Some((q1 + l2 - i, month_day(m, s, i + 4, l1) + ", "@ + month_day(m, s, q1, l2)))
            } else {
                None
            }
        },
    }
}

/// `s[i..]` with every match of `rule` replaced, scanning left to right.
pub open spec fn rewrite(rule: Rule, s: Seq<char>, i: int) -> Seq<char>
    decreases s.len() - i,
{
    if i < 0 || i >= s.len() {
        Seq::empty()
    } else {
        match rule_match(rule, s, i) {
            Some((n, rep)) => if n >= 1 && i + n <= s.len() {
                rep + rewrite(rule, s, i + n)
            } else {
                seq![s[i]] + rewrite(rule, s, i + 1)
            },
            None => seq![s[i]] + rewrite(rule, s, i + 1),
        }
    }
}

/// `s` without the periods at its end.
pub open spec fn strip_periods(s: Seq<char>) -> Seq<char>
    decreases s.len(),
{
    if s.len() > 0 && s.last() == '.' {
        strip_periods(s.drop_last())
    } else {
        s
    }
}

/// `s[i..end]` is a list of `Mon D` items joined by `, `.
pub open spec fn item_list(s: Seq<char>, i: int, end: int) -> bool
    decreases end - i,
{
    let l = day_at(s, i + 4);
    if letters3(s, i) && i + 3 < s.len() && s[i + 3] == ' ' && l >= 1 && i + 4 + l <= end {
        i + 4 + l == end || (i + 4 + l + 2 < end && s[i + 4 + l] == ',' && s[i + 5 + l] == ' '
            && item_list(s, i + 6 + l, end))
    } else {
        false
    }
}

/// `Jul 1, Jul 2 only` becomes `Only Jul 1, Jul 2`.
pub open spec fn only_first(s: Seq<char>) -> Seq<char> {
    let k = s.len() - " only"@.len();
    if k >= 0 && at_ci(s, k, " only"@) && item_list(s, 0, k) {
        "Only "@ + s.subrange(0, k)
    } else {
        s
    }
}

/// A dangerous-goods sentence loses its closing `, no other passengers permitted`.
pub open spec fn without_passenger_clause(s: Seq<char>) -> Seq<char> {
    let a = "DG Sailing only "@.len() as int;
    let k = s.len() - ", no other passengers permitted"@.len();
    if a <= k && at_ci(s, 0, "DG Sailing only "@) && at_ci(s, k, ", no other passengers permitted"@)
        && !s.subrange(a, k).contains('\n') {
        s.subrange(0, k)
    } else {
        s
    }
}

/// The canonical wording of an annotation.
pub open spec fn normalized(s: Seq<char>) -> Seq<char> {
    let s1 = strip_periods(s);
    let s2 = rewrite(Rule::April, s1, 0);
    let s3 = rewrite(Rule::Year, s2, 0);
    let s4 = rewrite(Rule::Conjunction, s3, 0);
    let s5 = rewrite(Rule::MonthDaySpace, s4, 0);
    let s6 = rewrite(Rule::MonthDayComma, s5, 0);
    let s7 = rewrite(Rule::ThreeDays, s6, 0);
    let s8 = rewrite(Rule::TwoDays, s7, 0);
    let s9 = only_first(s8);
    without_passenger_clause(s9)
}

/// Appends `s[a..b]` to `out`.
pub fn push_range(out: &mut Vec<char>, s: &Vec<char>, a: usize, b: usize)
    requires
        a <= b <= s@.len(),
    ensures
        final(out)@ == old(out)@ + s@.subrange(a as int, b as int),
{
    let mut k: usize = a;
    while k < b
        invariant
            a <= k <= b <= s@.len(),
            out@ == old(out)@ + s@.subrange(a as int, k as int),
        decreases b - k,
    {
        out.push(s[k]);
        k = k + 1;
        assert(out@ =~= old(out)@ + s@.subrange(a as int, k as int));
    }
}

/// Appends the characters of `t` to `out`.
pub fn push_str(out: &mut Vec<char>, t: &str)
    ensures
        final(out)@ == old(out)@ + t@,
{
    let v = chars_of(t);
    push_range(out, &v, 0, v.len());
    assert(v@.subrange(0, v@.len() as int) =~= v@);
}

fn letters3_exec(s: &Vec<char>, i: usize) -> (r: bool)
    ensures
        r == letters3(s@, i as int),
{
    i <= s.len() && 3 <= s.len() - i && is_alpha_exec(s[i]) && is_alpha_exec(s[i + 1])
        && is_alpha_exec(s[i + 2])
}

fn boundary_before_exec(s: &Vec<char>, i: usize) -> (r: bool)
    requires
        i <= s@.len(),
    ensures
        r == boundary_before(s@, i as int),
{
    i == 0 || !is_word_exec(s[i - 1])
}

fn boundary_after_exec(s: &Vec<char>, i: usize) -> (r: bool)
    requires
        i <= s@.len(),
    ensures
        r == boundary_after(s@, i as int),
{
    i == s.len() || !is_word_exec(s[i])
}

fn day_at_exec(s: &Vec<char>, i: usize) -> (r: usize)
    requires
        i <= s@.len(),
    ensures
        r == day_at(s@, i as int),
        i + r <= s@.len(),
{
    let n = digit_run_exec(s, i);
    if 1 <= n && n <= 2 {
        n
    } else {
        0
    }
}

/// Position after a separator `, ` or ` ` at `p`, if there is one.
fn sep_after_exec(s: &Vec<char>, p: usize) -> (r: Option<usize>)
    requires
        p <= s@.len(),
    ensures
        r matches Some(q) ==> q == sep_after(s@, p as int) && q <= s@.len(),
        r is None ==> sep_after(s@, p as int) == -1,
{
    if p < s.len() && s[p] == ',' {
        if p + 1 < s.len() && s[p + 1] == ' ' {
            Some(p + 2)
        } else {
            None
        }
    } else if p < s.len() && s[p] == ' ' {
        Some(p + 1)
    } else {
        None
    }
}

/// Appends `s[m..m + 3]`, a space and `s[p..p + l]` to `out`.
fn push_month_day(out: &mut Vec<char>, s: &Vec<char>, m: usize, p: usize, l: usize)
    requires
        m + 3 <= s@.len(),
        p + l <= s@.len(),
    ensures
        final(out)@ == old(out)@ + month_day(s@.subrange(m as int, m + 3), s@, p as int, l as int),
{
    // The length of a vector fits in `usize`; reading it tells the prover so.
    let _len = s.len();
    push_range(out, s, m, m + 3);
    out.push(' ');
    push_range(out, s, p, p + l);
    assert(out@ =~= old(out)@ + month_day(s@.subrange(m as int, m + 3), s@, p as int, l as int));
}

/// What rule `rule` matches at position `i`.
fn match_rule(rule: Rule, s: &Vec<char>, i: usize) -> (r: Option<(usize, Vec<char>)>)
    requires
        i < s@.len(),
    ensures
        r matches Some((n, rep)) ==> rule_match(rule, s@, i as int) == Some((n as int, rep@)),
        r is None ==> rule_match(rule, s@, i as int) is None,
{
    // The length of a vector fits in `usize`; reading it tells the prover so.
    let _len = s.len();
    match rule {
        Rule::April => {
            if is_alpha_exec(s[i]) && boundary_before_exec(s, i) && at_ci_exec(s, i, "april") {
                let n = "april".unicode_len();
                if boundary_after_exec(s, i + n) {
                    return Some((n, chars_of("Apr")));
                }
            }
            None
        },
        Rule::Year => {
            if i <= s.len() && 6 <= s.len() - i && s[i] == ',' && s[i + 1] == ' '
                && digit_run_exec(s, i + 2) >= 4 && boundary_after_exec(s, i + 6) {
                let v: Vec<char> = Vec::new();
                assert(v@ =~= Seq::<char>::empty());
                Some((6, v))
            } else {
                None
            }
        },
        Rule::Conjunction => {
            if at_ci_exec(s, i, " & ") {
                Some((" & ".unicode_len(), chars_of(", ")))
            } else if at_ci_exec(s, i, ", and ") {
                Some((", and ".unicode_len(), chars_of(", ")))
            } else if at_ci_exec(s, i, " and ") {
                Some((" and ".unicode_len(), chars_of(", ")))
            } else {
                None
            }
        },
        Rule::MonthDaySpace => {
            if !letters3_exec(s, i) || !boundary_before_exec(s, i) {
                return None;
            }
            let l = day_at_exec(s, i + 3);
            if l >= 1 && boundary_after_exec(s, i + 3 + l) {
                let mut v: Vec<char> = Vec::new();
                push_month_day(&mut v, s, i, i + 3, l);
                assert(v@ =~= month_day(s@.subrange(i as int, i + 3), s@, i + 3, l as int));
                Some((3 + l, v))
            } else {
                None
            }
        },
        Rule::MonthDayComma => {
            if !letters3_exec(s, i) || !boundary_before_exec(s, i) || i + 3 >= s.len() || s[i + 3]
                != ' ' {
                return None;
            }
            let l1 = day_at_exec(s, i + 4);
            if l1 < 1 || i + 4 + l1 >= s.len() || s[i + 4 + l1] != ' ' || !letters3_exec(
                s,
                i + 5 + l1,
            ) || i + 8 + l1 >= s.len() || s[i + 8 + l1] != ' ' {
                return None;
            }
            let l2 = day_at_exec(s, i + 9 + l1);
            if l2 < 1 || !boundary_after_exec(s, i + 9 + l1 + l2) {
                return None;
            }
            let mut v: Vec<char> = Vec::new();
            push_range(&mut v, s, i, i + 4 + l1);
            push_str(&mut v, ", ");
            push_range(&mut v, s, i + 5 + l1, i + 9 + l1 + l2);
            assert(v@ =~= s@.subrange(i as int, i + 4 + l1) + ", "@ + s@.subrange(
                i + 5 + l1,
                i + 9 + l1 + l2,
            ));
            Some((9 + l1 + l2, v))
        },
        Rule::ThreeDays => {
            if !letters3_exec(s, i) || !boundary_before_exec(s, i) || i + 3 >= s.len() || s[i + 3]
                != ' ' {
                return None;
            }
            let l1 = day_at_exec(s, i + 4);
            if l1 < 1 {
                return None;
            }
            let q1 = match sep_after_exec(s, i + 4 + l1) {
                Some(q) => q,
                None => {
                    return None;
                },
            };
            let l2 = day_at_exec(s, q1);
            if l2 < 1 {
                return None;
            }
            let q2 = match sep_after_exec(s, q1 + l2) {
                Some(q) => q,
                None => {
                    return None;
                },
            };
            let l3 = day_at_exec(s, q2);
            if l3 < 1 || !boundary_after_exec(s, q2 + l3) {
                return None;
            }
            let ghost m = s@.subrange(i as int, i + 3);
            let mut v: Vec<char> = Vec::new();
            push_month_day(&mut v, s, i, i + 4, l1);
            push_str(&mut v, ", ");
            push_month_day(&mut v, s, i, q1, l2);
            push_str(&mut v, ", ");
            push_month_day(&mut v, s, i, q2, l3);
            assert(v@ =~= month_day(m, s@, i + 4, l1 as int) + ", "@ + month_day(
                m,
                s@,
                q1 as int,
                l2 as int,
            ) + ", "@ + month_day(m, s@, q2 as int, l3 as int));
            Some((q2 + l3 - i, v))
        },
        Rule::TwoDays => {
            if !letters3_exec(s, i) || !boundary_before_exec(s, i) || i + 3 >= s.len() || s[i + 3]
                != ' ' {
                return None;
            }
            let l1 = day_at_exec(s, i + 4);
            if l1 < 1 {
                return None;
            }
            let q1 = match sep_after_exec(s, i + 4 + l1) {
                Some(q) => q,
                None => {
                    return None;
                },
            };
            let l2 = day_at_exec(s, q1);
            if l2 < 1 || !boundary_after_exec(s, q1 + l2) {
                return None;
            }
            let ghost m = s@.subrange(i as int, i + 3);
            let mut v: Vec<char> = Vec::new();
            push_month_day(&mut v, s, i, i + 4, l1);
            push_str(&mut v, ", ");
            push_month_day(&mut v, s, i, q1, l2);
            assert(v@ =~= month_day(m, s@, i + 4, l1 as int) + ", "@ + month_day(
                m,
                s@,
                q1 as int,
                l2 as int,
            ));
            Some((q1 + l2 - i, v))
        },
    }
}

/// `s` with every match of `rule` replaced, scanning left to right.
pub fn apply_rule(rule: Rule, s: &Vec<char>) -> (r: Vec<char>)
    ensures
        r@ == rewrite(rule, s@, 0),
{
    let mut out: Vec<char> = Vec::new();
    let mut i: usize = 0;
    while i < s.len()
        invariant
            i <= s@.len(),
            out@ + rewrite(rule, s@, i as int) == rewrite(rule, s@, 0),
        decreases s@.len() - i,
    {
        let ghost out0 = out@;
        match match_rule(rule, s, i) {
            Some((n, rep)) => {
                if n >= 1 && n <= s.len() - i {
                    push_range(&mut out, &rep, 0, rep.len());
                    assert(rep@.subrange(0, rep@.len() as int) =~= rep@);
                    assert(out@ + rewrite(rule, s@, (i + n) as int) =~= out0 + rewrite(
                        rule,
                        s@,
                        i as int,
                    ));
                    i = i + n;
                } else {
                    out.push(s[i]);
                    assert(out@ + rewrite(rule, s@, i + 1) =~= out0 + rewrite(rule, s@, i as int));
                    i = i + 1;
                }
            },
            None => {
                out.push(s[i]);
                assert(out@ + rewrite(rule, s@, i + 1) =~= out0 + rewrite(rule, s@, i as int));
                i = i + 1;
            },
        }
    }
    assert(out@ =~= out@ + rewrite(rule, s@, i as int));
    out
}

/// `s` without the periods at its end.
pub fn strip_periods_exec(s: &Vec<char>) -> (r: Vec<char>)
    ensures
        r@ == strip_periods(s@),
{
    let mut k: usize = s.len();
    assert(s@.subrange(0, k as int) =~= s@);
    while k > 0 && s[k - 1] == '.'
        invariant
            k <= s@.len(),
            strip_periods(s@) == strip_periods(s@.subrange(0, k as int)),
        decreases k,
    {
        assert(s@.subrange(0, k as int).drop_last() =~= s@.subrange(0, k - 1));
        k = k - 1;
    }
    crate::text::slice(s, 0, k)
}

fn item_list_exec(s: &Vec<char>, end: usize) -> (r: bool)
    requires
        end <= s@.len(),
    ensures
        r == item_list(s@, 0, end as int),
{
    let len = s.len();
    let mut i: usize = 0;
    while i <= end
        invariant
            len == s@.len(),
            end <= s@.len(),
            item_list(s@, 0, end as int) == item_list(s@, i as int, end as int),
        decreases end + 1 - i,
    {
        if !letters3_exec(s, i) || i + 3 >= s.len() || s[i + 3] != ' ' {
            return false;
        }
        let l = day_at_exec(s, i + 4);
        if l < 1 || i + 4 + l > end {
            return false;
        }
        if i + 4 + l == end {
            return true;
        }
        if end - (i + 4 + l) <= 2 || s[i + 4 + l] != ',' || s[i + 5 + l] != ' ' {
            return false;
        }
        i = i + 6 + l;
    }
    false
}

/// Whether `s[a..b]` holds a line break.
pub fn has_line_break(s: &Vec<char>, a: usize, b: usize) -> (r: bool)
    requires
        a <= b <= s@.len(),
    ensures
        r == s@.subrange(a as int, b as int).contains('\n'),
{
    let mut k: usize = a;
    while k < b
        invariant
            a <= k <= b <= s@.len(),
            forall|j: int| a <= j < k ==> s@[j] != '\n',
        decreases b - k,
    {
        if s[k] == '\n' {
            assert(s@.subrange(a as int, b as int)[k - a] == '\n');
            return true;
        }
        k = k + 1;
    }
    assert forall|j: int| 0 <= j < b - a implies s@.subrange(a as int, b as int)[j] != '\n' by {
        assert(s@[a + j] != '\n');
    }
    false
}

/// `Jul 1, Jul 2 only` becomes `Only Jul 1, Jul 2`.
pub fn only_first_exec(s: &Vec<char>) -> (r: Vec<char>)
    ensures
        r@ == only_first(s@),
{
    let n = " only".unicode_len();
    if n <= s.len() && at_ci_exec(s, s.len() - n, " only") && item_list_exec(s, s.len() - n) {
        let mut r = chars_of("Only ");
        push_range(&mut r, s, 0, s.len() - n);
        r
    } else {
        crate::text::slice(s, 0, s.len())
    }
}

/// A dangerous-goods sentence loses its closing `, no other passengers permitted`.
pub fn without_passenger_clause_exec(s: &Vec<char>) -> (r: Vec<char>)
    ensures
        r@ == without_passenger_clause(s@),
{
    let a = "DG Sailing only ".unicode_len();
    let b = ", no other passengers permitted".unicode_len();
    if b <= s.len() && a <= s.len() - b {
        let k = s.len() - b;
        if at_ci_exec(s, 0, "DG Sailing only ") && at_ci_exec(
            s,
            k,
            ", no other passengers permitted",
        ) && !has_line_break(s, a, k) {
            return crate::text::slice(s, 0, k);
        }
    }
    crate::text::slice(s, 0, s.len())
}

/// The canonical wording of an annotation, after each rewrite in turn.
pub fn normalize(s: &Vec<char>) -> (r: Vec<char>)
    ensures
        r@ == normalized(s@),
{
    let s1 = strip_periods_exec(s);
    let s2 = apply_rule(Rule::April, &s1);
    let s3 = apply_rule(Rule::Year, &s2);
    let s4 = apply_rule(Rule::Conjunction, &s3);
    let s5 = apply_rule(Rule::MonthDaySpace, &s4);
    let s6 = apply_rule(Rule::MonthDayComma, &s5);
    let s7 = apply_rule(Rule::ThreeDays, &s6);
    let s8 = apply_rule(Rule::TwoDays, &s7);
    let s9 = only_first_exec(&s8);
    without_passenger_clause_exec(&s9)
}

} // verus!
