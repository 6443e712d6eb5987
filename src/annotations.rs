//! Classification of annotations and their effect on a sailing row.
use vstd::prelude::*;

use crate::calendar::{
    date_within, lemma_date_within_in_range, twelve_hour_time, Date, DateRange, Time,
};
use crate::dates::{insert_date, set_of, AnnotationDates, DatesView};
use crate::keyed::{
    has_key, keys_unique, lemma_pairs_map_index, lemma_pairs_map_push, lemma_pairs_map_update,
    pairs_map,
};
use crate::normalize::{normalize, normalized};
use crate::notes::{text_date_restriction, AnnotationNotes};
use crate::text::{
    at_ci, at_ci_exec, at_exact, at_exact_exec, chars_of, digit_run, digit_run_exec, is_alpha,
    is_alpha_exec, lower, lower_exec, skip_space, trim, trim_bounds, is_space_exec,
};

verus! {

/// Why an annotation could not be read. Each variant names the piece that
/// failed and the annotation it came from.
#[derive(Clone, Debug)]
pub enum AnnotationError {
    /// A departure time that is no twelve-hour time.
    InvalidTime { time: String, annotation: String },
    /// A date token that names no date.
    InvalidDate { date: String, annotation: String },
    /// A restriction keyword in an unexpected letter case.
    UnexpectedKeyword { keyword: String, annotation: String },
    /// Text of none of the known shapes.
    Unrecognized { text: String, annotation: String },
}

pub enum ErrorView {
    InvalidTime { time: Seq<char>, annotation: Seq<char> },
    InvalidDate { date: Seq<char>, annotation: Seq<char> },
    UnexpectedKeyword { keyword: Seq<char>, annotation: Seq<char> },
    Unrecognized { text: Seq<char>, annotation: Seq<char> },
}

impl View for AnnotationError {
    type V = ErrorView;

    open spec fn view(&self) -> ErrorView {
        match self {
            AnnotationError::InvalidTime { time, annotation } => ErrorView::InvalidTime {
                time: time@,
                annotation: annotation@,
            },
            AnnotationError::InvalidDate { date, annotation } => ErrorView::InvalidDate {
                date: date@,
                annotation: annotation@,
            },
            AnnotationError::UnexpectedKeyword { keyword, annotation } =>
                ErrorView::UnexpectedKeyword { keyword: keyword@, annotation: annotation@ },
            AnnotationError::Unrecognized { text, annotation } => ErrorView::Unrecognized {
                text: text@,
                annotation: annotation@,
            },
        }
    }
}

/// What the annotations of one row say.
pub struct AnnotationsView {
    pub dg_dates: DatesView,
    pub is_dg_only: bool,
    pub star_dates: DatesView,
    pub star_dates_by_time: Map<Time, DatesView>,
    pub all_dates: DatesView,
    pub all_notes: Map<Seq<char>, DatesView>,
}

/// Index of the first line break at or after `i`, or the length.
pub open spec fn line_end(t: Seq<char>, i: int) -> int
    decreases t.len() - i,
{
    if i < 0 || i >= t.len() || t[i] == '\n' {
        if i < 0 { 0 } else if i > t.len() { t.len() as int } else { i }
    } else {
        line_end(t, i + 1)
    }
}

/// Index of the last `*` in `t[b..j]`, or -1.
pub open spec fn last_star(t: Seq<char>, b: int, j: int) -> int
    decreases j - b,
{
    if j <= b {
        -1
    } else if t[j - 1] == '*' {
        j - 1
    } else {
        last_star(t, b, j - 1)
    }
}

/// `*<time> Not Available on: <dates>*` or `*<time> Only on: <dates>*`:
/// the time, the keyword as written, and the dates.
pub open spec fn star_parts(t: Seq<char>) -> Option<(Seq<char>, Seq<char>, Seq<char>)> {
    let h = digit_run(t, 1) as int;
    let m = digit_run(t, 2 + h) as int;
    let p = 2 + h + m;
    let k = p + 4;
    let kl = if at_ci(t, k, "Not Available"@) {
        "Not Available"@.len() as int
    } else if at_ci(t, k, "Only"@) {
        "Only"@.len() as int
    } else {
        0
    };
    let b = k + kl + " on: "@.len();
    let j = last_star(t, b, line_end(t, b));
    if t.len() > 0 && t[0] == '*' && h >= 1 && 1 + h < t.len() && t[1 + h] == ':' && m >= 1 && p
        + 4 <= t.len() && t[p] == ' ' && (lower(t[p + 1]) == 'a' || lower(t[p + 1]) == 'p')
        && lower(t[p + 2]) == 'm' && t[p + 3] == ' ' && kl > 0 && at_ci(t, k + kl, " on: "@) && j
        >= 0 {
        Some((t.subrange(1, p + 3), t.subrange(k, k + kl), t.subrange(b, j)))
    } else {
        None
    }
}

/// Length of the restriction keyword that opens `t`, letter case aside, or 0.
pub open spec fn keyword_len(t: Seq<char>, with_dg: bool) -> int {
    if at_ci(t, 0, "Except"@) {
        "Except"@.len() as int
    } else if at_ci(t, 0, "Not Available"@) {
        "Not Available"@.len() as int
    } else if at_ci(t, 0, "Only"@) {
        "Only"@.len() as int
    } else if with_dg && at_ci(t, 0, "DG Sailing only"@) {
        "DG Sailing only"@.len() as int
    } else {
        0
    }
}

/// Where an optional ` on` and an optional `:` after position `p` end, for
/// each way of taking them, most taken first: `on` and `colon` say which are taken.
pub open spec fn after_options(t: Seq<char>, p: int, on: bool, colon: bool) -> int {
    let q = if on {
        if at_ci(t, p, " on"@) {
            p + " on"@.len()
        } else {
            -1
        }
    } else {
        p
    };
    if q < 0 {
        -1
    } else if colon {
        if 0 <= q < t.len() && t[q] == ':' {
            q + 1
        } else {
            -1
        }
    } else {
        q
    }
}

/// Start of the date list after the options end at `q`, or -1.
pub open spec fn blanket_rest(t: Seq<char>, q: int) -> int {
    if 0 <= q < t.len() && t[q] == ' ' {
        q + 1
    } else {
        -1
    }
}

/// The first of the four ways of taking the options that `f` accepts.
pub open spec fn first_way(t: Seq<char>, p: int, f: spec_fn(Seq<char>, int) -> int) -> int {
    let a = f(t, after_options(t, p, true, true));
    let b = f(t, after_options(t, p, true, false));
    let c = f(t, after_options(t, p, false, true));
    let d = f(t, after_options(t, p, false, false));
    if after_options(t, p, true, true) >= 0 && a >= 0 {
        a
    } else if after_options(t, p, true, false) >= 0 && b >= 0 {
        b
    } else if after_options(t, p, false, true) >= 0 && c >= 0 {
        c
    } else if after_options(t, p, false, false) >= 0 && d >= 0 {
        d
    } else {
        -1
    }
}

/// `Except: <dates>`, `Not Available on <dates>`, `Only <dates>` or
/// `DG Sailing only: <dates>`: the keyword as written, and the dates.
pub open spec fn blanket_parts(t: Seq<char>) -> Option<(Seq<char>, Seq<char>)> {
    let kl = keyword_len(t, true);
    let b = first_way(t, kl, |t: Seq<char>, q: int| blanket_rest(t, q));
    if kl > 0 && b >= 0 {
        Some((t.subrange(0, kl), t.subrange(b, line_end(t, b))))
    } else {
        None
    }
}

/// Length of the run of letters that starts at `i`.
pub open spec fn letter_run(s: Seq<char>, i: int) -> nat
    decreases s.len() - i,
{
    if 0 <= i < s.len() && is_alpha(s[i]) {
        1 + letter_run(s, i + 1)
    } else {
        0
    }
}

/// End of ` <letters> <digits>` followed by ` ! ` when the options end at
/// `q`, or -1.
pub open spec fn compound_end(t: Seq<char>, q: int) -> int {
    let a = letter_run(t, q + 1) as int;
    let g0 = q + 2 + a;
    let g = g0 + digit_run(t, g0);
    if 0 <= q && g + 3 <= t.len() && t[q] == ' ' && t[q + 1 + a] == ' ' && t[g] == ' ' && t[g
        + 1] == '!' && t[g + 2] == ' ' {
        g
    } else {
        -1
    }
}

/// A restriction followed by a note of its own, as in
/// `Except Jul 1 ! Foot passengers only`: the two pieces.
pub open spec fn compound_parts(t: Seq<char>) -> Option<(Seq<char>, Seq<char>)> {
    let kl = keyword_len(t, false);
    let g = first_way(t, kl, |t: Seq<char>, q: int| compound_end(t, q));
    if kl > 0 && g >= 0 {
        Some((t.subrange(0, g), t.subrange(g + 1, line_end(t, g + 1))))
    } else {
        None
    }
}

/// The dates of a list read within a range, added to `acc`; the list is
/// split at commas (and at ampersands where `amp` holds), each piece trimmed.
/// A piece that names no date is the error; one outside the range is skipped.
pub open spec fn dates_from(
    r: DateRange,
    s: Seq<char>,
    amp: bool,
    start: int,
    i: int,
    acc: Set<Date>,
) -> Result<Set<Date>, Seq<char>>
    decreases s.len() - i,
{
    if i < s.len() && !(s[i] == ',' || (amp && s[i] == '&')) {
        dates_from(r, s, amp, start, i + 1, acc)
    } else {
        let piece = trim(s.subrange(start, i));
        let next = match date_within(r, piece) {
            Err(_) => Err(piece),
            Ok(None) => Ok(acc),
            Ok(Some(d)) => Ok(acc.insert(d)),
        };
        if i >= s.len() {
            next
        } else {
            match next {
                Err(e) => Err(e),
                Ok(acc2) => dates_from(r, s, amp, i + 1, i + 1, acc2),
            }
        }
    }
}

pub open spec fn is_marker(c: char) -> bool {
    c == '!' || c == '#' || c == '*'
}

/// Length of the run of `!`, `#` and `*` that opens `s`.
pub open spec fn marker_run(s: Seq<char>, i: int) -> nat
    decreases s.len() - i,
{
    if 0 <= i < s.len() && is_marker(s[i]) {
        1 + marker_run(s, i + 1)
    } else {
        0
    }
}

/// A note's text once its leading markers and the white space after them are
/// gone, a closing period or comma is gone, and white space is trimmed.
pub open spec fn note_text(t: Seq<char>) -> Seq<char> {
    let f1 = t.subrange(skip_space(t, marker_run(t, 0) as int), t.len() as int);
    let f2 = if f1.len() > 0 && (f1.last() == '.' || f1.last() == ',') {
        f1.drop_last()
    } else {
        f1
    };
    trim(f2)
}

pub open spec fn contains_phrase(t: Seq<char>, p: Seq<char>) -> bool {
    exists|i: int| at_exact(t, i, p)
}

/// A sentence that makes the whole sailing one for dangerous goods only.
pub open spec fn is_dg_sentence(t: Seq<char>) -> bool {
    at_exact(t, 0, "Dangerous goods only"@) || contains_phrase(
        t,
        "No passengers permitted - DG Sailing only"@,
    ) || exists|i: int|
        at_exact(t, i, "No passengers permitted - only sails on "@) && !t.subrange(
            i + "No passengers permitted - only sails on "@.len(),
            t.len() as int,
        ).contains('\n')
}

/// The note that a known sentence records, if it is one.
pub open spec fn known_note(t: Seq<char>) -> Option<Seq<char>> {
    if t
        == "Saturna-bound vehicles arriving at the booth at least 15 minutes prior to sailing time are offered priority on this sailing"@ {
        Some(
            "Saturna-bound vehicles arriving at the booth at least 15 minutes prior to sailing time are offered priority on this sailing"@,
        )
    } else if t == "Foot passengers only"@ {
        Some("Foot passengers only"@)
    } else if t == "Note: This sailing departs just after midnight"@ {
        Some("This sailing departs just after midnight"@)
    } else if t == "This sailing departs just before midnight"@ {
        Some("This sailing departs just before midnight"@)
    } else {
        None
    }
}

pub open spec fn with_only(m: DatesView, s: Set<Date>) -> DatesView {
    DatesView { only: s, except: m.except }
}

pub open spec fn with_except(m: DatesView, s: Set<Date>) -> DatesView {
    DatesView { only: m.only, except: s }
}

pub open spec fn map_date_error<T>(r: Result<T, Seq<char>>, a: Seq<char>) -> Result<T, ErrorView> {
    match r {
        Ok(v) => Ok(v),
        Err(d) => Err(ErrorView::InvalidDate { date: d, annotation: a }),
    }
}

/// The effect of one annotation `a` on the row's state `m`.
pub open spec fn parse_single_spec(m: AnnotationsView, r: DateRange, a: Seq<char>) -> Result<
    AnnotationsView,
    ErrorView,
> {
    let t = normalized(a);
    if let Some((time_text, kw, list)) = star_parts(t) {
        match twelve_hour_time(time_text) {
            None => Err(ErrorView::InvalidTime { time: time_text, annotation: a }),
            Some(time) => {
                let entry = if m.star_dates_by_time.contains_key(time) {
                    m.star_dates_by_time[time]
                } else {
                    DatesView::empty()
                };
                if kw == "Not Available"@ {
                    match map_date_error(dates_from(r, list, false, 0, 0, entry.except), a) {
                        Err(e) => Err(e),
                        Ok(s) => Ok(
                            AnnotationsView {
                                star_dates_by_time: m.star_dates_by_time.insert(
                                    time,
                                    with_except(entry, s),
                                ),
                                ..m
                            },
                        ),
                    }
                } else if kw == "Only"@ {
                    match map_date_error(dates_from(r, list, false, 0, 0, entry.only), a) {
                        Err(e) => Err(e),
                        Ok(s) => Ok(
                            AnnotationsView {
                                star_dates_by_time: m.star_dates_by_time.insert(
                                    time,
                                    with_only(entry, s),
                                ),
                                ..m
                            },
                        ),
                    }
                } else {
                    Err(ErrorView::UnexpectedKeyword { keyword: kw, annotation: a })
                }
            },
        }
    } else if let Some((kw, list)) = blanket_parts(t) {
        if kw == "Except"@ || kw == "Not Available"@ {
            match map_date_error(dates_from(r, list, true, 0, 0, m.all_dates.except), a) {
                Err(e) => Err(e),
                Ok(s) => Ok(AnnotationsView { all_dates: with_except(m.all_dates, s), ..m }),
            }
        } else if kw == "Only"@ {
            match map_date_error(dates_from(r, list, true, 0, 0, m.all_dates.only), a) {
                Err(e) => Err(e),
                Ok(s) => Ok(AnnotationsView { all_dates: with_only(m.all_dates, s), ..m }),
            }
        } else if kw == "DG Sailing only"@ {
            match map_date_error(dates_from(r, list, true, 0, 0, m.dg_dates.only), a) {
                Err(e) => Err(e),
                Ok(s) => Ok(AnnotationsView { dg_dates: with_only(m.dg_dates, s), ..m }),
            }
        } else {
            Err(ErrorView::UnexpectedKeyword { keyword: kw, annotation: a })
        }
    } else {
        let n = note_text(t);
        if is_dg_sentence(n) {
            Ok(AnnotationsView { is_dg_only: true, ..m })
        } else if let Some(note) = known_note(n) {
            Ok(
                AnnotationsView {
                    all_notes: if m.all_notes.contains_key(note) {
                        m.all_notes
                    } else {
                        m.all_notes.insert(note, DatesView::empty())
                    },
                    ..m
                },
            )
        } else if n == "No sailings available on this route for these dates"@ {
            Ok(m)
        } else {
            Err(ErrorView::Unrecognized { text: n, annotation: a })
        }
    }
}

/// One annotation string: a restriction with a note of its own is read as
/// its two pieces in turn, each as an annotation string of its own.
pub open spec fn parse_one_spec(m: AnnotationsView, r: DateRange, a: Seq<char>) -> Result<
    AnnotationsView,
    ErrorView,
>
    decreases a.len(),
    via parse_one_decreases
{
    if let Some((first, second)) = compound_parts(a) {
        match parse_one_spec(m, r, first) {
            Err(e) => Err(e),
            Ok(m1) => parse_one_spec(m1, r, second),
        }
    } else {
        parse_single_spec(m, r, a)
    }
}

#[via_fn]
proof fn parse_one_decreases(m: AnnotationsView, r: DateRange, a: Seq<char>) {
    lemma_compound_shorter(a);
}

proof fn lemma_line_end_bound(t: Seq<char>, i: int)
    requires
        0 <= i,
    ensures
        i <= t.len() ==> i <= line_end(t, i) <= t.len(),
        line_end(t, i) <= t.len(),
    decreases t.len() - i,
{
    if i < t.len() && t[i] != '\n' {
        lemma_line_end_bound(t, i + 1);
    }
}

/// Both pieces of a compound annotation are shorter than the whole.
pub proof fn lemma_compound_shorter(t: Seq<char>)
    ensures
        compound_parts(t) matches Some((f, s)) ==> f.len() < t.len() && s.len() < t.len(),
{
    let kl = keyword_len(t, false);
    let g = first_way(t, kl, |t: Seq<char>, q: int| compound_end(t, q));
    if kl > 0 && g >= 0 {
        assert(g + 3 <= t.len());
        lemma_line_end_bound(t, g + 1);
    }
}

/// The annotation strings of a row in turn; the first that fails is the error.
pub open spec fn parse_spec(m: AnnotationsView, r: DateRange, texts: Seq<Seq<char>>) -> Result<
    AnnotationsView,
    ErrorView,
>
    decreases texts.len(),
{
    if texts.len() == 0 {
        Ok(m)
    } else {
        match parse_spec(m, r, texts.drop_last()) {
            Err(e) => Err(e),
            Ok(m1) => parse_one_spec(m1, r, texts.last()),
        }
    }
}

/// Relies on `String`'s `FromIterator<char>`: the string holds the characters
/// in their order.
#[verifier::external_body]
fn string_from(v: &Vec<char>) -> (r: String)
    ensures
        r@ == v@,
{
    v.iter().collect()
}

/// Whether `v` holds exactly the characters of `t`.
fn equals_str(v: &Vec<char>, t: &str) -> (r: bool)
    ensures
        r == (v@ == t@),
{
    let n = t.unicode_len();
    assert(v@.subrange(0, v@.len() as int) =~= v@);
    v.len() == n && at_exact_exec(v, 0, t)
}

fn line_end_exec(t: &Vec<char>, i: usize) -> (r: usize)
    requires
        i <= t@.len(),
    ensures
        r == line_end(t@, i as int),
        i <= r <= t@.len(),
{
    let mut j: usize = i;
    while j < t.len() && t[j] != '\n'
        invariant
            i <= j <= t@.len(),
            line_end(t@, i as int) == line_end(t@, j as int),
        decreases t@.len() - j,
    {
        j = j + 1;
    }
    j
}

fn last_star_exec(t: &Vec<char>, b: usize, e: usize) -> (r: Option<usize>)
    requires
        b <= e <= t@.len(),
    ensures
        r matches Some(j) ==> j == last_star(t@, b as int, e as int) && b <= j < e,
        r is None ==> last_star(t@, b as int, e as int) == -1,
{
    let mut j: usize = e;
    while j > b
        invariant
            b <= j <= e <= t@.len(),
            last_star(t@, b as int, e as int) == last_star(t@, b as int, j as int),
        decreases j - b,
    {
        if t[j - 1] == '*' {
            return Some(j - 1);
        }
        j = j - 1;
    }
    None
}

fn star_parts_exec(t: &Vec<char>) -> (r: Option<(Vec<char>, Vec<char>, Vec<char>)>)
    ensures
        r matches Some((a, b, c)) ==> star_parts(t@) == Some((a@, b@, c@)),
        r is None ==> star_parts(t@) is None,
{
    let len = t.len();
    if len == 0 || t[0] != '*' {
        return None;
    }
    let h = digit_run_exec(t, 1);
    if h < 1 || 1 + h >= len || t[1 + h] != ':' {
        return None;
    }
    let m = digit_run_exec(t, 2 + h);
    let p = 2 + h + m;
    if m < 1 || p > len || len - p < 4 || t[p] != ' ' {
        return None;
    }
    let am = lower_exec(t[p + 1]);
    if (am != 'a' && am != 'p') || lower_exec(t[p + 2]) != 'm' || t[p + 3] != ' ' {
        return None;
    }
    let k = p + 4;
    let kl = if at_ci_exec(t, k, "Not Available") {
        "Not Available".unicode_len()
    } else if at_ci_exec(t, k, "Only") {
        "Only".unicode_len()
    } else {
        0
    };
    if kl == 0 || !at_ci_exec(t, k + kl, " on: ") {
        return None;
    }
    let b = k + kl + " on: ".unicode_len();
    let e = line_end_exec(t, b);
    match last_star_exec(t, b, e) {
        None => None,
        Some(j) => Some(
            (
                crate::text::slice(t, 1, p + 3),
                crate::text::slice(t, k, k + kl),
                crate::text::slice(t, b, j),
            ),
        ),
    }
}

fn keyword_len_exec(t: &Vec<char>, with_dg: bool) -> (r: usize)
    ensures
        r == keyword_len(t@, with_dg),
        r <= t@.len(),
{
    if at_ci_exec(t, 0, "Except") {
        "Except".unicode_len()
    } else if at_ci_exec(t, 0, "Not Available") {
        "Not Available".unicode_len()
    } else if at_ci_exec(t, 0, "Only") {
        "Only".unicode_len()
    } else if with_dg && at_ci_exec(t, 0, "DG Sailing only") {
        "DG Sailing only".unicode_len()
    } else {
        0
    }
}

fn after_options_exec(t: &Vec<char>, p: usize, on: bool, colon: bool) -> (r: Option<usize>)
    requires
        p <= t@.len(),
    ensures
        r matches Some(q) ==> q == after_options(t@, p as int, on, colon) && q <= t@.len(),
        r is None ==> after_options(t@, p as int, on, colon) < 0,
{
    // The length of a vector fits in `usize`; reading it tells the prover so.
    let _len = t.len();
    let q = if on {
        if at_ci_exec(t, p, " on") {
            p + " on".unicode_len()
        } else {
            return None;
        }
    } else {
        p
    };
    if colon {
        if q < t.len() && t[q] == ':' {
            Some(q + 1)
        } else {
            None
        }
    } else {
        Some(q)
    }
}

fn blanket_rest_exec(t: &Vec<char>, q: usize) -> (r: Option<usize>)
    requires
        q <= t@.len(),
    ensures
        r matches Some(b) ==> b == blanket_rest(t@, q as int) && b <= t@.len(),
        r is None ==> blanket_rest(t@, q as int) < 0,
{
    if q < t.len() && t[q] == ' ' {
        Some(q + 1)
    } else {
        None
    }
}

fn letter_run_exec(t: &Vec<char>, i: usize) -> (r: usize)
    requires
        i <= t@.len(),
    ensures
        r == letter_run(t@, i as int),
        i + r <= t@.len(),
{
    let mut j: usize = i;
    while j < t.len() && is_alpha_exec(t[j])
        invariant
            i <= j <= t@.len(),
            letter_run(t@, i as int) == (j - i) + letter_run(t@, j as int),
        decreases t@.len() - j,
    {
        j = j + 1;
    }
    j - i
}

fn compound_end_exec(t: &Vec<char>, q: usize) -> (r: Option<usize>)
    requires
        q <= t@.len(),
    ensures
        r matches Some(g) ==> g == compound_end(t@, q as int) && g + 3 <= t@.len(),
        r is None ==> compound_end(t@, q as int) < 0,
{
    let len = t.len();
    if q >= len || t[q] != ' ' {
        return None;
    }
    let a = letter_run_exec(t, q + 1);
    if q + 1 + a >= len || t[q + 1 + a] != ' ' {
        return None;
    }
    let g0 = q + 2 + a;
    let g = g0 + digit_run_exec(t, g0);
    if g > len || len - g < 3 || t[g] != ' ' || t[g + 1] != '!' || t[g + 2] != ' ' {
        return None;
    }
    Some(g)
}

/// Start of the date list of a blanket restriction whose keyword ends at `p`.
fn blanket_start(t: &Vec<char>, p: usize) -> (r: Option<usize>)
    requires
        p <= t@.len(),
    ensures
        r matches Some(b) ==> b == first_way(t@, p as int, |t: Seq<char>, q: int| blanket_rest(t, q))
            && b <= t@.len(),
        r is None ==> first_way(t@, p as int, |t: Seq<char>, q: int| blanket_rest(t, q)) < 0,
{
    if let Some(q) = after_options_exec(t, p, true, true) {
        if let Some(b) = blanket_rest_exec(t, q) {
            return Some(b);
        }
    }
    if let Some(q) = after_options_exec(t, p, true, false) {
        if let Some(b) = blanket_rest_exec(t, q) {
            return Some(b);
        }
    }
    if let Some(q) = after_options_exec(t, p, false, true) {
        if let Some(b) = blanket_rest_exec(t, q) {
            return Some(b);
        }
    }
    if let Some(q) = after_options_exec(t, p, false, false) {
        if let Some(b) = blanket_rest_exec(t, q) {
            return Some(b);
        }
    }
    None
}

/// End of the restriction of a compound annotation whose keyword ends at `p`.
fn compound_split(t: &Vec<char>, p: usize) -> (r: Option<usize>)
    requires
        p <= t@.len(),
    ensures
        r matches Some(g) ==> g == first_way(t@, p as int, |t: Seq<char>, q: int| compound_end(t, q))
            && g + 3 <= t@.len(),
        r is None ==> first_way(t@, p as int, |t: Seq<char>, q: int| compound_end(t, q)) < 0,
{
    if let Some(q) = after_options_exec(t, p, true, true) {
        if let Some(g) = compound_end_exec(t, q) {
            return Some(g);
        }
    }
    if let Some(q) = after_options_exec(t, p, true, false) {
        if let Some(g) = compound_end_exec(t, q) {
            return Some(g);
        }
    }
    if let Some(q) = after_options_exec(t, p, false, true) {
        if let Some(g) = compound_end_exec(t, q) {
            return Some(g);
        }
    }
    if let Some(q) = after_options_exec(t, p, false, false) {
        if let Some(g) = compound_end_exec(t, q) {
            return Some(g);
        }
    }
    None
}

fn blanket_parts_exec(t: &Vec<char>) -> (r: Option<(Vec<char>, Vec<char>)>)
    ensures
        r matches Some((a, b)) ==> blanket_parts(t@) == Some((a@, b@)),
        r is None ==> blanket_parts(t@) is None,
{
    let kl = keyword_len_exec(t, true);
    if kl == 0 {
        return None;
    }
    match blanket_start(t, kl) {
        None => None,
        Some(b) => {
            let e = line_end_exec(t, b);
            Some((crate::text::slice(t, 0, kl), crate::text::slice(t, b, e)))
        },
    }
}

/// The two pieces of a restriction followed by a note of its own.
pub fn compound_parts_exec(t: &Vec<char>) -> (r: Option<(Vec<char>, Vec<char>)>)
    ensures
        r matches Some((a, b)) ==> compound_parts(t@) == Some((a@, b@)) && a@.len() < t@.len()
            && b@.len() < t@.len(),
        r is None ==> compound_parts(t@) is None,
{
    proof {
        lemma_compound_shorter(t@);
    }
    // The length of a vector fits in `usize`; reading it tells the prover so.
    let _len = t.len();
    let kl = keyword_len_exec(t, false);
    if kl == 0 {
        return None;
    }
    match compound_split(t, kl) {
        None => None,
        Some(g) => {
            let e = line_end_exec(t, g + 1);
            Some((crate::text::slice(t, 0, g), crate::text::slice(t, g + 1, e)))
        },
    }
}

/// Adds to `target` the dates of the list `s` that fall within `r`; a piece
/// that names no date is handed back.
fn add_dates(target: &mut Vec<Date>, r: &DateRange, s: &Vec<char>, amp: bool) -> (res: Result<
    (),
    Vec<char>,
>)
    requires
        r.valid(),
        forall|d: Date| old(target)@.contains(d) ==> d.valid(),
    ensures
        forall|d: Date| final(target)@.contains(d) ==> d.valid(),
        match dates_from(*r, s@, amp, 0, 0, set_of(old(target)@)) {
            Ok(set) => res is Ok && set_of(final(target)@) == set,
            Err(e) => res matches Err(v) && v@ == e,
        },
{
    let len = s.len();
    let mut start: usize = 0;
    let mut i: usize = 0;
    while i <= len
        invariant
            len == s@.len(),
            start <= i <= len,
            r.valid(),
            forall|d: Date| target@.contains(d) ==> d.valid(),
            dates_from(*r, s@, amp, 0, 0, set_of(old(target)@)) == dates_from(
                *r,
                s@,
                amp,
                start as int,
                i as int,
                set_of(target@),
            ),
        decreases len + 1 - i,
    {
        if i < len && !(s[i] == ',' || (amp && s[i] == '&')) {
            i = i + 1;
        } else {
            let raw = crate::text::slice(s, start, i);
            let (a, b) = trim_bounds(&raw);
            let piece = crate::text::slice(&raw, a, b);
            let ghost before = target@;
            match r.parse_date_within(&piece) {
                Err(_) => {
                    return Err(piece);
                },
                Ok(None) => {},
                Ok(Some(d)) => {
                    insert_date(target, d);
                    proof {
                        assert forall|x: Date| target@.contains(x) implies x.valid() by {
                            assert(set_of(target@).contains(x));
                            if x != d {
                                assert(set_of(before).contains(x));
                            }
                        }
                    }
                },
            }
            if i >= len {
                return Ok(());
            }
            i = i + 1;
            start = i;
        }
    }
    Ok(())
}

fn marker_run_exec(t: &Vec<char>) -> (r: usize)
    ensures
        r == marker_run(t@, 0),
        r <= t@.len(),
{
    let mut j: usize = 0;
    while j < t.len() && (t[j] == '!' || t[j] == '#' || t[j] == '*')
        invariant
            j <= t@.len(),
            marker_run(t@, 0) == j + marker_run(t@, j as int),
        decreases t@.len() - j,
    {
        j = j + 1;
    }
    j
}

fn note_text_exec(t: &Vec<char>) -> (r: Vec<char>)
    ensures
        r@ == note_text(t@),
{
    let mk = marker_run_exec(t);
    let mut ws: usize = mk;
    while ws < t.len() && is_space_exec(t[ws])
        invariant
            mk <= ws <= t@.len(),
            skip_space(t@, mk as int) == skip_space(t@, ws as int),
        decreases t@.len() - ws,
    {
        ws = ws + 1;
    }
    let f1 = crate::text::slice(t, ws, t.len());
    let f2 = if f1.len() > 0 && (f1[f1.len() - 1] == '.' || f1[f1.len() - 1] == ',') {
        let v = crate::text::slice(&f1, 0, f1.len() - 1);
        assert(v@ =~= f1@.drop_last());
        v
    } else {
        f1
    };
    let (a, b) = trim_bounds(&f2);
    crate::text::slice(&f2, a, b)
}

fn contains_phrase_exec(t: &Vec<char>, p: &str) -> (r: bool)
    ensures
        r == contains_phrase(t@, p@),
{
    let mut i: usize = 0;
    while i < t.len()
        invariant
            i <= t@.len(),
            forall|j: int| 0 <= j < i ==> !at_exact(t@, j, p@),
        decreases t@.len() - i,
    {
        if at_exact_exec(t, i, p) {
            return true;
        }
        i = i + 1;
    }
    if at_exact_exec(t, i, p) {
        return true;
    }
    assert forall|j: int| !at_exact(t@, j, p@) by {
        if 0 <= j < i {
        }
    }
    false
}

fn sails_on_exec(t: &Vec<char>) -> (r: bool)
    ensures
        r == exists|i: int|
            at_exact(t@, i, "No passengers permitted - only sails on "@) && !t@.subrange(
                i + "No passengers permitted - only sails on "@.len(),
                t@.len() as int,
            ).contains('\n'),
{
    let n = "No passengers permitted - only sails on ".unicode_len();
    let mut i: usize = 0;
    while i < t.len()
        invariant
            i <= t@.len(),
            n == "No passengers permitted - only sails on "@.len(),
            forall|j: int|
                0 <= j < i ==> !(at_exact(t@, j, "No passengers permitted - only sails on "@)
                    && !t@.subrange(j + n, t@.len() as int).contains('\n')),
        decreases t@.len() - i,
    {
        if at_exact_exec(t, i, "No passengers permitted - only sails on ")
            && !crate::normalize::has_line_break(t, i + n, t.len()) {
            return true;
        }
        i = i + 1;
    }
    if at_exact_exec(t, i, "No passengers permitted - only sails on ")
        && !crate::normalize::has_line_break(t, i + n, t.len()) {
        return true;
    }
    false
}

fn is_dg_sentence_exec(t: &Vec<char>) -> (r: bool)
    ensures
        r == is_dg_sentence(t@),
{
    at_exact_exec(t, 0, "Dangerous goods only") || contains_phrase_exec(
        t,
        "No passengers permitted - DG Sailing only",
    ) || sails_on_exec(t)
}

pub open spec fn star_entries(v: Seq<(Time, AnnotationDates)>) -> Seq<(Time, DatesView)> {
    v.map_values(|e: (Time, AnnotationDates)| (e.0, e.1@))
}

/// Departure times are distinct and every date held is a date of the calendar.
pub open spec fn star_wf(v: Seq<(Time, AnnotationDates)>) -> bool {
    keys_unique(star_entries(v)) && forall|i: int| 0 <= i < v.len() ==> (#[trigger] v[i]).1.wf()
}

pub open spec fn entry_or_empty(m: Map<Time, DatesView>, k: Time) -> DatesView {
    if m.contains_key(k) {
        m[k]
    } else {
        DatesView::empty()
    }
}

/// Index of the entry for `time`, which is added with no dates if missing.
fn time_entry(v: &mut Vec<(Time, AnnotationDates)>, time: Time) -> (j: usize)
    requires
        star_wf(old(v)@),
    ensures
        star_wf(final(v)@),
        j < final(v)@.len(),
        final(v)@[j as int].0 == time,
        final(v)@[j as int].1@ == entry_or_empty(pairs_map(star_entries(old(v)@)), time),
        pairs_map(star_entries(final(v)@)) == pairs_map(star_entries(old(v)@)).insert(
            time,
            entry_or_empty(pairs_map(star_entries(old(v)@)), time),
        ),
{
    let mut i: usize = 0;
    while i < v.len()
        invariant
            i <= v@.len(),
            v@ == old(v)@,
            star_wf(v@),
            forall|j: int| 0 <= j < i ==> v@[j].0 != time,
        decreases v@.len() - i,
    {
        if v[i].0 == time {
            proof {
                lemma_pairs_map_index(star_entries(v@), i as int);
                assert(pairs_map(star_entries(v@)).insert(time, pairs_map(star_entries(v@))[time])
                    =~= pairs_map(star_entries(v@)));
            }
            return i;
        }
        i = i + 1;
    }
    let ghost before = v@;
    let n = v.len();
    proof {
        assert(!has_key(star_entries(before), time)) by {
            if has_key(star_entries(before), time) {
                let j = choose|j: int|
                    0 <= j < star_entries(before).len() && star_entries(before)[j].0 == time;
                assert(before[j].0 == time);
            }
        }
    }
    let d = AnnotationDates::new();
    v.push((time, d));
    proof {
        assert(star_entries(v@) =~= star_entries(before).push((time, d@)));
        lemma_pairs_map_push(star_entries(before), time, d@);
        assert forall|q: int| 0 <= q < v@.len() implies (#[trigger] v@[q]).1.wf() by {
            if q < before.len() {
                assert(v@[q] == before[q]);
            }
        }
    }
    n
}

/// Adds the dates of `list` to the `except` set (or the `only` set) of entry `j`.
fn add_to_entry(
    v: &mut Vec<(Time, AnnotationDates)>,
    j: usize,
    except: bool,
    r: &DateRange,
    list: &Vec<char>,
) -> (res: Result<(), Vec<char>>)
    requires
        star_wf(old(v)@),
        j < old(v)@.len(),
        r.valid(),
    ensures
        star_wf(final(v)@),
        match dates_from(
            *r,
            list@,
            false,
            0,
            0,
            if except {
                old(v)@[j as int].1@.except
            } else {
                old(v)@[j as int].1@.only
            },
        ) {
            Ok(set) => res is Ok && pairs_map(star_entries(final(v)@)) == pairs_map(
                star_entries(old(v)@),
            ).insert(
                old(v)@[j as int].0,
                if except {
                    with_except(old(v)@[j as int].1@, set)
                } else {
                    with_only(old(v)@[j as int].1@, set)
                },
            ),
            Err(e) => res matches Err(x) && x@ == e,
        },
{
    let ghost before = v@;
    let (k, mut d) = v.remove(j);
    assert(before[j as int] == (k, d));
    assert(d.wf());
    let res = if except {
        add_dates(&mut d.except, r, list, false)
    } else {
        add_dates(&mut d.only, r, list, false)
    };
    v.insert(j, (k, d));
    proof {
        assert(v@ =~= before.update(j as int, (k, d)));
        assert(star_entries(v@) =~= star_entries(before).update(
            j as int,
            (star_entries(before)[j as int].0, d@),
        ));
        lemma_pairs_map_update(star_entries(before), j as int, d@);
        assert forall|q: int| 0 <= q < v@.len() implies (#[trigger] v@[q]).1.wf() by {
            if q != j {
                assert(v@[q] == before[q]);
            }
        }
        if except {
            assert(d@ == with_except(before[j as int].1@, set_of(d.except@)));
        } else {
            assert(d@ == with_only(before[j as int].1@, set_of(d.only@)));
        }
    }
    res
}

/// The annotations of one sailing row: what restricts the sailing, and the
/// notes shown with it.
#[derive(Debug)]
pub struct Annotations {
    /// Dates on which the sailing carries dangerous goods only.
    pub dg_dates: AnnotationDates,
    /// The sailing carries dangerous goods only, on every date.
    pub is_dg_only: bool,
    /// A restriction on the starred departure, whatever its time.
    pub star_dates: AnnotationDates,
    /// Restrictions on a starred departure at another time than the row's.
    pub star_dates_by_time: Vec<(Time, AnnotationDates)>,
    /// The restriction on the row's own sailing.
    pub all_dates: AnnotationDates,
    /// The row's notes.
    pub all_notes: AnnotationNotes,
}

impl View for Annotations {
    type V = AnnotationsView;

    open spec fn view(&self) -> AnnotationsView {
        AnnotationsView {
            dg_dates: self.dg_dates@,
            is_dg_only: self.is_dg_only,
            star_dates: self.star_dates@,
            star_dates_by_time: pairs_map(star_entries(self.star_dates_by_time@)),
            all_dates: self.all_dates@,
            all_notes: self.all_notes@,
        }
    }
}

pub open spec fn texts_view(texts: Seq<&str>) -> Seq<Seq<char>> {
    texts.map_values(|t: &str| t@)
}

/// Once a prefix of the texts fails, the whole list fails with the same error.
proof fn lemma_parse_error_stays(
    m: AnnotationsView,
    r: DateRange,
    texts: Seq<Seq<char>>,
    k: int,
    e: ErrorView,
)
    requires
        0 <= k <= texts.len(),
        parse_spec(m, r, texts.subrange(0, k)) == Err::<AnnotationsView, ErrorView>(e),
    ensures
        parse_spec(m, r, texts) == Err::<AnnotationsView, ErrorView>(e),
    decreases texts.len(),
{
    if k == texts.len() {
        assert(texts.subrange(0, k) =~= texts);
    } else {
        assert(texts.drop_last().subrange(0, k) =~= texts.subrange(0, k));
        lemma_parse_error_stays(m, r, texts.drop_last(), k, e);
    }
}

impl Annotations {
    /// Every date held is a date of the calendar; departure times and note
    /// texts are distinct.
    pub open spec fn wf(&self) -> bool {
        &&& self.dg_dates.wf()
        &&& self.star_dates.wf()
        &&& star_wf(self.star_dates_by_time@)
        &&& self.all_dates.wf()
        &&& self.all_notes.wf()
    }

    /// A row with no annotation read yet.
    pub fn new() -> (r: Annotations)
        ensures
            r.wf(),
            r@ == (AnnotationsView {
                dg_dates: DatesView::empty(),
                is_dg_only: false,
                star_dates: DatesView::empty(),
                star_dates_by_time: Map::empty(),
                all_dates: DatesView::empty(),
                all_notes: Map::empty(),
            }),
    {
        let r = Annotations {
            dg_dates: AnnotationDates::new(),
            is_dg_only: false,
            star_dates: AnnotationDates::new(),
            star_dates_by_time: Vec::new(),
            all_dates: AnnotationDates::new(),
            all_notes: AnnotationNotes::new(),
        };
        assert(pairs_map(star_entries(r.star_dates_by_time@)) =~= Map::<Time, DatesView>::empty());
        r
    }

    fn parse_single(&mut self, r: &DateRange, a: &Vec<char>) -> (res: Result<(), AnnotationError>)
        requires
            old(self).wf(),
            r.valid(),
        ensures
            final(self).wf(),
            match parse_single_spec(old(self)@, *r, a@) {
                Ok(m) => res is Ok && final(self)@ == m,
                Err(e) => res matches Err(x) && x@ == e,
            },
    {
        let t = normalize(a);
        if let Some((tt, kw, list)) = star_parts_exec(&t) {
            match Time::parse_twelve_hour(&tt) {
                None => Err(
                    AnnotationError::InvalidTime { time: string_from(&tt), annotation: string_from(a) },
                ),
                Some(time) => {
                    let ghost map0 = pairs_map(star_entries(self.star_dates_by_time@));
                    let j = time_entry(&mut self.star_dates_by_time, time);
                    let except = if equals_str(&kw, "Not Available") {
                        true
                    } else if equals_str(&kw, "Only") {
                        false
                    } else {
                        return Err(
                            AnnotationError::UnexpectedKeyword {
                                keyword: string_from(&kw),
                                annotation: string_from(a),
                            },
                        );
                    };
                    let ghost map1 = pairs_map(star_entries(self.star_dates_by_time@));
                    let res = add_to_entry(&mut self.star_dates_by_time, j, except, r, &list);
                    proof {
                        let e = entry_or_empty(map0, time);
                        let map2 = pairs_map(star_entries(self.star_dates_by_time@));
                        if res is Ok {
                            if except {
                                let set = dates_from(*r, list@, false, 0, 0, e.except)->Ok_0;
                                assert(map2 =~= map0.insert(time, with_except(e, set)));
                            } else {
                                let set = dates_from(*r, list@, false, 0, 0, e.only)->Ok_0;
                                assert(map2 =~= map0.insert(time, with_only(e, set)));
                            }
                        }
                    }
                    match res {
                        Ok(()) => Ok(()),
                        Err(p) => Err(
                            AnnotationError::InvalidDate {
                                date: string_from(&p),
                                annotation: string_from(a),
                            },
                        ),
                    }
                },
            }
        } else if let Some((kw, list)) = blanket_parts_exec(&t) {
            let res = if equals_str(&kw, "Except") || equals_str(&kw, "Not Available") {
                add_dates(&mut self.all_dates.except, r, &list, true)
            } else if equals_str(&kw, "Only") {
                add_dates(&mut self.all_dates.only, r, &list, true)
            } else if equals_str(&kw, "DG Sailing only") {
                add_dates(&mut self.dg_dates.only, r, &list, true)
            } else {
                return Err(
                    AnnotationError::UnexpectedKeyword {
                        keyword: string_from(&kw),
                        annotation: string_from(a),
                    },
                );
            };
            match res {
                Ok(()) => Ok(()),
                Err(p) => Err(
                    AnnotationError::InvalidDate { date: string_from(&p), annotation: string_from(a) },
                ),
            }
        } else {
            let n = note_text_exec(&t);
            if is_dg_sentence_exec(&n) {
                self.is_dg_only = true;
                Ok(())
            } else if equals_str(
                &n,
                "Saturna-bound vehicles arriving at the booth at least 15 minutes prior to sailing time are offered priority on this sailing",
            ) {
                text_date_restriction(
                    &mut self.all_notes,
                    "Saturna-bound vehicles arriving at the booth at least 15 minutes prior to sailing time are offered priority on this sailing".to_owned(),
                );
                Ok(())
            } else if equals_str(&n, "Foot passengers only") {
                text_date_restriction(&mut self.all_notes, "Foot passengers only".to_owned());
                Ok(())
            } else if equals_str(&n, "Note: This sailing departs just after midnight") {
                text_date_restriction(
                    &mut self.all_notes,
                    "This sailing departs just after midnight".to_owned(),
                );
                Ok(())
            } else if equals_str(&n, "This sailing departs just before midnight") {
                text_date_restriction(
                    &mut self.all_notes,
                    "This sailing departs just before midnight".to_owned(),
                );
                Ok(())
            } else if equals_str(&n, "No sailings available on this route for these dates") {
                Ok(())
            } else {
                Err(
                    AnnotationError::Unrecognized {
                        text: string_from(&n),
                        annotation: string_from(a),
                    },
                )
            }
        }
    }

    fn parse_one(&mut self, r: &DateRange, a: &Vec<char>) -> (res: Result<(), AnnotationError>)
        requires
            old(self).wf(),
            r.valid(),
        ensures
            final(self).wf(),
            match parse_one_spec(old(self)@, *r, a@) {
                Ok(m) => res is Ok && final(self)@ == m,
                Err(e) => res matches Err(x) && x@ == e,
            },
        decreases a@.len(),
    {
        match compound_parts_exec(a) {
            Some((first, second)) => match self.parse_one(r, &first) {
                Ok(()) => self.parse_one(r, &second),
                Err(e) => Err(e),
            },
            None => self.parse_single(r, a),
        }
    }

    /// Reads the annotation strings of one row in turn into this row's state;
    /// a restriction followed by a note of its own (`Except Jul 1 ! Foot
    /// passengers only`) counts as its two pieces. The first string that
    /// cannot be read is the error.
    pub fn parse(&mut self, date_range: &DateRange, annotation_texts: &[&str]) -> (res: Result<
        (),
        AnnotationError,
    >)
        requires
            old(self).wf(),
            date_range.valid(),
        ensures
            final(self).wf(),
            match parse_spec(old(self)@, *date_range, texts_view(annotation_texts@)) {
                Ok(m) => res is Ok && final(self)@ == m,
                Err(e) => res matches Err(x) && x@ == e,
            },
    {
        let ghost tv = texts_view(annotation_texts@);
        let mut i: usize = 0;
        assert(tv.subrange(0, 0).len() == 0);
        while i < annotation_texts.len()
            invariant
                i <= annotation_texts@.len(),
                tv == texts_view(annotation_texts@),
                date_range.valid(),
                self.wf(),
                parse_spec(old(self)@, *date_range, tv.subrange(0, i as int)) == Ok::<
                    AnnotationsView,
                    ErrorView,
                >(self@),
            decreases annotation_texts@.len() - i,
        {
            let a = chars_of(annotation_texts[i]);
            proof {
                assert(tv.subrange(0, i + 1).drop_last() =~= tv.subrange(0, i as int));
                assert(tv.subrange(0, i + 1).last() == a@);
            }
            match self.parse_one(date_range, &a) {
                Ok(()) => {},
                Err(e) => {
                    proof {
                        lemma_parse_error_stays(old(self)@, *date_range, tv, i + 1, e@);
                    }
                    return Err(e);
                },
            }
            i = i + 1;
        }
        assert(tv.subrange(0, i as int) =~= tv);
        Ok(())
    }
}

/// Reading a restriction followed by a note of its own as one string leaves
/// the row as reading its two pieces as two strings does.
pub proof fn lemma_compound_same_as_pieces(m: AnnotationsView, r: DateRange, a: Seq<char>)
    requires
        compound_parts(a) is Some,
    ensures
        parse_spec(m, r, seq![a]) == parse_spec(
            m,
            r,
            seq![compound_parts(a)->Some_0.0, compound_parts(a)->Some_0.1],
        ),
{
    let f = compound_parts(a)->Some_0.0;
    let s = compound_parts(a)->Some_0.1;
    assert(seq![a].drop_last() =~= Seq::<Seq<char>>::empty());
    assert(seq![f, s].drop_last() =~= seq![f]);
    assert(seq![f].drop_last() =~= Seq::<Seq<char>>::empty());
    reveal_with_fuel(parse_spec, 3);
}

pub open spec fn is_delim(c: char, amp: bool) -> bool {
    c == ',' || (amp && c == '&')
}

/// `s[a..b]` is one piece of the list: it runs between separators.
pub open spec fn is_piece(s: Seq<char>, amp: bool, a: int, b: int) -> bool {
    &&& 0 <= a <= b <= s.len()
    &&& a == 0 || is_delim(s[a - 1], amp)
    &&& b == s.len() || is_delim(s[b], amp)
    &&& forall|k: int| a <= k < b ==> !is_delim(#[trigger] s[k], amp)
}

/// Reading a list only adds dates, and each date it adds lies inside the range.
pub proof fn lemma_dates_from_sound(
    r: DateRange,
    s: Seq<char>,
    amp: bool,
    start: int,
    i: int,
    acc: Set<Date>,
)
    requires
        r.valid(),
        dates_from(r, s, amp, start, i, acc) is Ok,
    ensures
        acc.subset_of(dates_from(r, s, amp, start, i, acc)->Ok_0),
        forall|d: Date|
            #[trigger] dates_from(r, s, amp, start, i, acc)->Ok_0.contains(d) && !acc.contains(d)
                ==> d.valid() && r.contains(d),
    decreases s.len() - i,
{
    if i < s.len() && !(s[i] == ',' || (amp && s[i] == '&')) {
        lemma_dates_from_sound(r, s, amp, start, i + 1, acc);
    } else {
        let piece = trim(s.subrange(start, i));
        lemma_date_within_in_range(r, piece);
        let next = match date_within(r, piece) {
            Err(_) => Err(piece),
            Ok(None) => Ok(acc),
            Ok(Some(d)) => Ok(acc.insert(d)),
        };
        if i < s.len() {
            lemma_dates_from_sound(r, s, amp, i + 1, i + 1, next->Ok_0);
        }
    }
}

/// Each piece of the list that names a date inside the range puts that date
/// in the result.
pub proof fn lemma_dates_from_complete(
    r: DateRange,
    s: Seq<char>,
    amp: bool,
    start: int,
    i: int,
    acc: Set<Date>,
    a: int,
    b: int,
    d: Date,
)
    requires
        r.valid(),
        0 <= start <= i <= s.len(),
        forall|k: int| start <= k < i ==> !is_delim(#[trigger] s[k], amp),
        is_piece(s, amp, a, b),
        a == start || a > i,
        date_within(r, trim(s.subrange(a, b))) == Ok::<Option<Date>, ()>(Some(d)),
        dates_from(r, s, amp, start, i, acc) is Ok,
    ensures
        dates_from(r, s, amp, start, i, acc)->Ok_0.contains(d),
    decreases s.len() - i,
{
    if i < s.len() && !(s[i] == ',' || (amp && s[i] == '&')) {
        if a != start {
            assert(a != i + 1);
        }
        lemma_dates_from_complete(r, s, amp, start, i + 1, acc, a, b, d);
    } else {
        let piece = trim(s.subrange(start, i));
        let next = match date_within(r, piece) {
            Err(_) => Err(piece),
            Ok(None) => Ok(acc),
            Ok(Some(x)) => Ok(acc.insert(x)),
        };
        if a == start {
            if b < i {
                assert(!is_delim(s[b], amp));
            }
            if b > i {
                assert(!is_delim(s[i], amp));
            }
            assert(b == i);
            if i < s.len() {
                lemma_dates_from_sound(r, s, amp, i + 1, i + 1, next->Ok_0);
            }
        } else {
            lemma_dates_from_complete(r, s, amp, i + 1, i + 1, next->Ok_0, a, b, d);
        }
    }
}

/// An `Except` or `Not Available` restriction puts each date of its list that
/// lies inside the range into the row's except-set, adds no date from outside
/// the range, and leaves every other set as it was.
pub proof fn lemma_except_restriction(m: AnnotationsView, r: DateRange, a: Seq<char>)
    requires
        r.valid(),
        star_parts(normalized(a)) is None,
        blanket_parts(normalized(a)) is Some,
        blanket_parts(normalized(a))->Some_0.0 == "Except"@ || blanket_parts(normalized(a))->Some_0.0
            == "Not Available"@,
        parse_single_spec(m, r, a) is Ok,
    ensures
        forall|x: int, y: int, d: Date|
            #![trigger is_piece(blanket_parts(normalized(a))->Some_0.1, true, x, y), parse_single_spec(m, r, a)->Ok_0.all_dates.except.contains(d)]
            is_piece(blanket_parts(normalized(a))->Some_0.1, true, x, y) && date_within(
                r,
                trim(blanket_parts(normalized(a))->Some_0.1.subrange(x, y)),
            ) == Ok::<Option<Date>, ()>(Some(d)) ==> parse_single_spec(
                m,
                r,
                a,
            )->Ok_0.all_dates.except.contains(d),
        forall|d: Date|
            #[trigger] parse_single_spec(m, r, a)->Ok_0.all_dates.except.contains(d)
                && !m.all_dates.except.contains(d) ==> r.contains(d),
        parse_single_spec(m, r, a)->Ok_0.all_dates.only == m.all_dates.only,
        parse_single_spec(m, r, a)->Ok_0.dg_dates == m.dg_dates,
        parse_single_spec(m, r, a)->Ok_0.star_dates == m.star_dates,
        parse_single_spec(m, r, a)->Ok_0.star_dates_by_time == m.star_dates_by_time,
        parse_single_spec(m, r, a)->Ok_0.all_notes == m.all_notes,
        parse_single_spec(m, r, a)->Ok_0.is_dg_only == m.is_dg_only,
{
    let list = blanket_parts(normalized(a))->Some_0.1;
    lemma_dates_from_sound(r, list, true, 0, 0, m.all_dates.except);
    assert forall|x: int, y: int, d: Date|
        #![trigger is_piece(list, true, x, y), parse_single_spec(m, r, a)->Ok_0.all_dates.except.contains(d)]
        is_piece(list, true, x, y) && date_within(r, trim(list.subrange(x, y))) == Ok::<
            Option<Date>,
            (),
        >(Some(d)) implies parse_single_spec(m, r, a)->Ok_0.all_dates.except.contains(d) by {
        lemma_dates_from_complete(r, list, true, 0, 0, m.all_dates.except, x, y, d);
    }
}

} // verus!
