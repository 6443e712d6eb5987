//! The per-note date sets and their resolution into a date restriction.
use vstd::prelude::*;

use crate::calendar::{weekday_of, Date, Weekday};

verus! {

/// The dates of a sequence, as a set.
pub open spec fn set_of(s: Seq<Date>) -> Set<Date> {
    Set::new(|d: Date| s.contains(d))
}

pub proof fn lemma_set_of_push(s: Seq<Date>, x: Date)
    ensures
        set_of(s.push(x)) == set_of(s).insert(x),
{
    assert forall|y: Date| #[trigger] s.push(x).contains(y) == (s.contains(y) || y == x) by {
        if s.contains(y) {
            let j = choose|j: int| 0 <= j < s.len() && s[j] == y;
            assert(s.push(x)[j] == y);
        }
        if y == x {
            assert(s.push(x)[s.len() as int] == y);
        }
        if s.push(x).contains(y) {
            let j = choose|j: int| 0 <= j < s.len() + 1 && s.push(x)[j] == y;
            if j < s.len() {
                assert(s[j] == y);
            }
        }
    }
    assert(set_of(s.push(x)) =~= set_of(s).insert(x));
}

/// On which dates something applies.
pub enum RestrictionView {
    All,
    Only(Set<Date>),
    Except(Set<Date>),
}

impl RestrictionView {
    pub open spec fn includes(self, d: Date) -> bool {
        match self {
            RestrictionView::All => true,
            RestrictionView::Only(s) => s.contains(d),
            RestrictionView::Except(s) => !s.contains(d),
        }
    }

    pub open spec fn is_never(self) -> bool {
        self matches RestrictionView::Only(s) && s.is_empty()
    }
}

/// On which dates something applies: always, only on some dates, or on all
/// dates but some.
#[derive(Clone, Debug)]
pub enum DateRestriction {
    All,
    Only(Vec<Date>),
    Except(Vec<Date>),
}

impl View for DateRestriction {
    type V = RestrictionView;

    open spec fn view(&self) -> RestrictionView {
        match self {
            DateRestriction::All => RestrictionView::All,
            DateRestriction::Only(v) => RestrictionView::Only(set_of(v@)),
            DateRestriction::Except(v) => RestrictionView::Except(set_of(v@)),
        }
    }
}

/// Whether `d` is one of the dates of `v`.
pub fn contains_date(v: &Vec<Date>, d: Date) -> (r: bool)
    ensures
        r == v@.contains(d),
{
    let mut i: usize = 0;
    while i < v.len()
        invariant
            i <= v@.len(),
            forall|j: int| 0 <= j < i ==> v@[j] != d,
        decreases v@.len() - i,
    {
        if v[i] == d {
            return true;
        }
        i = i + 1;
    }
    false
}

impl DateRestriction {
    /// Whether the restriction lets something apply on date `d`.
    pub fn includes_date(&self, d: Date) -> (r: bool)
        ensures
            r == self@.includes(d),
    {
        match self {
            DateRestriction::All => true,
            DateRestriction::Only(v) => contains_date(v, d),
            DateRestriction::Except(v) => !contains_date(v, d),
        }
    }

    /// Whether the restriction applies on no date at all.
    pub fn is_never(&self) -> (r: bool)
        ensures
            r == self@.is_never(),
    {
        match self {
            DateRestriction::Only(v) => {
                if v.len() > 0 {
                    assert(set_of(v@).contains(v@[0]));
                } else {
                    assert(set_of(v@) =~= Set::empty());
                }
                v.len() == 0
            },
            _ => false,
        }
    }
}

/// The dates on which a note applies only, and those on which it does not.
pub struct DatesView {
    pub only: Set<Date>,
    pub except: Set<Date>,
}

impl DatesView {
    pub open spec fn empty() -> DatesView {
        DatesView { only: Set::empty(), except: Set::empty() }
    }

    pub open spec fn is_always(self) -> bool {
        self.only.is_empty() && self.except.is_empty()
    }

    pub open spec fn union(self, other: DatesView) -> DatesView {
        DatesView { only: self.only + other.only, except: self.except + other.except }
    }

    /// The dates that fall on `weekday` and that `base` includes.
    pub open spec fn keep_on(self, weekday: Weekday, base: RestrictionView) -> DatesView {
        DatesView {
            only: self.only.filter(|d: Date| applies_on(d, weekday, base)),
            except: self.except.filter(|d: Date| applies_on(d, weekday, base)),
        }
    }

    /// The restriction these dates stand for: a date in both sets counts in
    /// neither, and an empty set restricts nothing.
    pub open spec fn resolved(self) -> RestrictionView {
        let only = self.only.difference(self.except);
        let except = self.except.difference(self.only);
        if !only.is_empty() {
            RestrictionView::Only(only)
        } else if !except.is_empty() {
            RestrictionView::Except(except)
        } else {
            RestrictionView::All
        }
    }
}

pub open spec fn applies_on(d: Date, weekday: Weekday, base: RestrictionView) -> bool {
    weekday_of(d) == weekday && base.includes(d)
}

/// The dates on which a note, or a sailing's condition, applies only, and those
/// on which it does not.
#[derive(Clone, Debug)]
pub struct AnnotationDates {
    pub only: Vec<Date>,
    pub except: Vec<Date>,
}

impl View for AnnotationDates {
    type V = DatesView;

    open spec fn view(&self) -> DatesView {
        DatesView { only: set_of(self.only@), except: set_of(self.except@) }
    }
}

/// Adds `d` to the dates of `v` unless it is there already.
pub fn insert_date(v: &mut Vec<Date>, d: Date)
    ensures
        set_of(final(v)@) == set_of(old(v)@).insert(d),
{
    if !contains_date(v, d) {
        v.push(d);
        proof {
            lemma_set_of_push(old(v)@, d);
        }
    } else {
        assert(set_of(v@) =~= set_of(old(v)@).insert(d));
    }
}

/// The dates of `v` that `other` does not hold.
fn without(v: &Vec<Date>, other: &Vec<Date>) -> (r: Vec<Date>)
    ensures
        set_of(r@) == set_of(v@).difference(set_of(other@)),
        forall|d: Date| r@.contains(d) ==> v@.contains(d),
{
    let mut r: Vec<Date> = Vec::new();
    let mut i: usize = 0;
    while i < v.len()
        invariant
            i <= v@.len(),
            set_of(r@) == set_of(v@.subrange(0, i as int)).difference(set_of(other@)),
            forall|d: Date| r@.contains(d) ==> v@.contains(d),
        decreases v@.len() - i,
    {
        let d = v[i];
        let ghost r0 = r@;
        if !contains_date(other, d) {
            r.push(d);
        }
        proof {
            lemma_set_of_push(r0, d);
            assert(v@.subrange(0, i + 1) =~= v@.subrange(0, i as int).push(d));
            lemma_set_of_push(v@.subrange(0, i as int), d);
            assert(set_of(r@) =~= set_of(v@.subrange(0, i + 1)).difference(set_of(other@)));
        }
        i = i + 1;
    }
    assert(v@.subrange(0, v@.len() as int) =~= v@);
    r
}

/// The dates of `v` that fall on `weekday` and that `base` includes.
fn kept_on(v: &Vec<Date>, weekday: Weekday, base: &DateRestriction) -> (r: Vec<Date>)
    requires
        forall|d: Date| v@.contains(d) ==> d.valid(),
    ensures
        set_of(r@) == set_of(v@).filter(|d: Date| applies_on(d, weekday, base@)),
        forall|d: Date| r@.contains(d) ==> v@.contains(d),
{
    let mut r: Vec<Date> = Vec::new();
    let mut i: usize = 0;
    while i < v.len()
        invariant
            i <= v@.len(),
            forall|d: Date| v@.contains(d) ==> d.valid(),
            set_of(r@) == set_of(v@.subrange(0, i as int)).filter(
                |d: Date| applies_on(d, weekday, base@),
            ),
            forall|d: Date| r@.contains(d) ==> v@.contains(d),
        decreases v@.len() - i,
    {
        let d = v[i];
        assert(v@.contains(d));
        let ghost r0 = r@;
        if d.weekday() == weekday && base.includes_date(d) {
            r.push(d);
        }
        proof {
            lemma_set_of_push(r0, d);
            assert(v@.subrange(0, i + 1) =~= v@.subrange(0, i as int).push(d));
            lemma_set_of_push(v@.subrange(0, i as int), d);
            assert(set_of(r@) =~= set_of(v@.subrange(0, i + 1)).filter(
                |d: Date| applies_on(d, weekday, base@),
            ));
        }
        i = i + 1;
    }
    assert(v@.subrange(0, v@.len() as int) =~= v@);
    r
}

proof fn lemma_set_of_empty(v: Seq<Date>)
    ensures
        set_of(v).is_empty() <==> v.len() == 0,
{
    if v.len() > 0 {
        assert(set_of(v).contains(v[0]));
    } else {
        assert(set_of(v) =~= Set::empty());
    }
}

impl AnnotationDates {
    /// Every date held is a date of the calendar.
    pub open spec fn wf(&self) -> bool {
        forall|d: Date| (self.only@.contains(d) || self.except@.contains(d)) ==> d.valid()
    }

    /// No restriction yet.
    pub fn new() -> (r: AnnotationDates)
        ensures
            r@ == DatesView::empty(),
            r.wf(),
    {
        let r = AnnotationDates { only: Vec::new(), except: Vec::new() };
        assert(r@.only =~= Set::empty());
        assert(r@.except =~= Set::empty());
        r
    }

    /// Whether neither set holds a date.
    pub fn is_always(&self) -> (r: bool)
        ensures
            r == self@.is_always(),
    {
        proof {
            lemma_set_of_empty(self.only@);
            lemma_set_of_empty(self.except@);
        }
        self.only.len() == 0 && self.except.len() == 0
    }

    /// Adds the dates of `other` to both sets.
    pub fn extend(&mut self, other: &AnnotationDates)
        requires
            old(self).wf(),
            other.wf(),
        ensures
            final(self)@ == old(self)@.union(other@),
            final(self).wf(),
    {
        assert(set_of(other.except@.subrange(0, 0)) =~= Set::empty());
        assert(set_of(self.except@) =~= set_of(old(self).except@) + set_of(other.except@.subrange(0, 0)));
        let mut i: usize = 0;
        while i < other.except.len()
            invariant
                i <= other.except@.len(),
                other.wf(),
                self.only@ == old(self).only@,
                set_of(self.except@) == set_of(old(self).except@) + set_of(
                    other.except@.subrange(0, i as int),
                ),
                self.wf(),
            decreases other.except@.len() - i,
        {
            let d = other.except[i];
            assert(other.except@.contains(d));
            insert_date(&mut self.except, d);
            proof {
                assert(other.except@.subrange(0, i + 1) =~= other.except@.subrange(0, i as int).push(d));
                lemma_set_of_push(other.except@.subrange(0, i as int), d);
                assert(set_of(self.except@) =~= set_of(old(self).except@) + set_of(
                    other.except@.subrange(0, i + 1),
                ));
                assert forall|x: Date| self.except@.contains(x) implies x.valid() by {
                    assert(set_of(self.except@).contains(x));
                }
            }
            i = i + 1;
        }
        assert(other.except@.subrange(0, other.except@.len() as int) =~= other.except@);
        assert(set_of(other.only@.subrange(0, 0)) =~= Set::empty());
        assert(set_of(self.only@) =~= set_of(old(self).only@) + set_of(other.only@.subrange(0, 0)));
        let mut j: usize = 0;
        while j < other.only.len()
            invariant
                j <= other.only@.len(),
                other.wf(),
                set_of(self.except@) == set_of(old(self).except@) + set_of(other.except@),
                set_of(self.only@) == set_of(old(self).only@) + set_of(
                    other.only@.subrange(0, j as int),
                ),
                self.wf(),
            decreases other.only@.len() - j,
        {
            let d = other.only[j];
            assert(other.only@.contains(d));
            insert_date(&mut self.only, d);
            proof {
                assert(other.only@.subrange(0, j + 1) =~= other.only@.subrange(0, j as int).push(d));
                lemma_set_of_push(other.only@.subrange(0, j as int), d);
                assert(set_of(self.only@) =~= set_of(old(self).only@) + set_of(
                    other.only@.subrange(0, j + 1),
                ));
                assert forall|x: Date| self.only@.contains(x) implies x.valid() by {
                    assert(set_of(self.only@).contains(x));
                }
            }
            j = j + 1;
        }
        assert(other.except@.subrange(0, other.except@.len() as int) =~= other.except@);
        assert(other.only@.subrange(0, other.only@.len() as int) =~= other.only@);
    }

    /// The restriction these dates stand for; a date in both sets is dropped
    /// from both.
    pub(crate) fn into_date_restriction(self) -> (r: DateRestriction)
        ensures
            r@ == self@.resolved(),
    {
        let only = without(&self.only, &self.except);
        let except = without(&self.except, &self.only);
        proof {
            lemma_set_of_empty(only@);
            lemma_set_of_empty(except@);
        }
        if only.len() > 0 {
            DateRestriction::Only(only)
        } else if except.len() > 0 {
            DateRestriction::Except(except)
        } else {
            DateRestriction::All
        }
    }

    /// The restriction on the dates that fall on `weekday` and that `base` includes.
    fn into_date_restriction_by(self, weekday: Weekday, base: &DateRestriction) -> (r:
        DateRestriction)
        requires
            self.wf(),
        ensures
            r@ == self@.keep_on(weekday, base@).resolved(),
    {
        self.kept_dates(weekday, base).into_date_restriction()
    }

    /// The dates that fall on `weekday` and that `base` includes.
    pub(crate) fn kept_dates(&self, weekday: Weekday, base: &DateRestriction) -> (r: AnnotationDates)
        requires
            self.wf(),
        ensures
            r@ == self@.keep_on(weekday, base@),
            r.wf(),
    {
        AnnotationDates {
            only: kept_on(&self.only, weekday, base),
            except: kept_on(&self.except, weekday, base),
        }
    }

    /// The restriction on the dates that fall on `weekday`.
    pub fn into_date_restriction_by_weekday(self, weekday: Weekday) -> (r: DateRestriction)
        requires
            self.wf(),
        ensures
            r@ == self@.keep_on(weekday, RestrictionView::All).resolved(),
    {
        self.into_date_restriction_by(weekday, &DateRestriction::All)
    }

    /// The restriction on the dates that fall on `weekday` and on which
    /// `date_restriction` lets the sailing run.
    pub fn into_date_restriction_by_weekday_and_date_restriction(
        self,
        weekday: Weekday,
        date_restriction: &DateRestriction,
    ) -> (r: DateRestriction)
        requires
            self.wf(),
        ensures
            r@ == self@.keep_on(weekday, date_restriction@).resolved(),
    {
        self.into_date_restriction_by(weekday, date_restriction)
    }
}

/// A date that stands in both sets is dropped from both: whatever the
/// restriction turns out to be, it names that date in neither variant.
pub proof fn lemma_shared_date_dropped(m: DatesView, d: Date)
    requires
        m.only.contains(d),
        m.except.contains(d),
    ensures
        !m.only.difference(m.except).contains(d),
        !m.except.difference(m.only).contains(d),
        match m.resolved() {
            RestrictionView::All => true,
            RestrictionView::Only(s) => !s.contains(d),
            RestrictionView::Except(s) => !s.contains(d),
        },
{
}

/// No dates resolve to no restriction, and a restriction that names dates
/// never names an empty set of them.
pub proof fn lemma_resolved_canonical(m: DatesView)
    ensures
        m.is_always() ==> m.resolved() == RestrictionView::All,
        m.resolved() matches RestrictionView::Only(s) ==> !s.is_empty(),
        m.resolved() matches RestrictionView::Except(s) ==> !s.is_empty(),
{
    if m.is_always() {
        assert(m.only.difference(m.except) =~= Set::empty());
        assert(m.except.difference(m.only) =~= Set::empty());
    }
}

/// Keeping the dates of one weekday and base restriction a second time keeps
/// them all, and resolves the same.
pub proof fn lemma_keep_on_idempotent(m: DatesView, weekday: Weekday, base: RestrictionView)
    ensures
        m.keep_on(weekday, base).keep_on(weekday, base) == m.keep_on(weekday, base),
        m.keep_on(weekday, base).keep_on(weekday, base).resolved() == m.keep_on(
            weekday,
            base,
        ).resolved(),
{
    assert(m.keep_on(weekday, base).keep_on(weekday, base).only =~= m.keep_on(weekday, base).only);
    assert(m.keep_on(weekday, base).keep_on(weekday, base).except =~= m.keep_on(
        weekday,
        base,
    ).except);
}

} // verus!
