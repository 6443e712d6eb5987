//! The note registry: free-text notes, each with the dates it applies on.
use vstd::prelude::*;

use crate::calendar::Weekday;
use crate::dates::{AnnotationDates, DateRestriction, DatesView, RestrictionView};
use crate::keyed::{
    has_key, keys_unique, lemma_pairs_map_index, lemma_pairs_map_push, lemma_pairs_map_update,
    pairs_map,
};

verus! {

/// The notes of one sailing row, each with its own dates.
#[derive(Clone, Debug)]
pub struct AnnotationNotes {
    pub map: Vec<(String, AnnotationDates)>,
}

pub open spec fn note_entries(s: Seq<(String, AnnotationDates)>) -> Seq<(Seq<char>, DatesView)> {
    s.map_values(|e: (String, AnnotationDates)| (e.0@, e.1@))
}

pub open spec fn all_wf(s: Seq<(String, AnnotationDates)>) -> bool {
    forall|i: int| 0 <= i < s.len() ==> (#[trigger] s[i]).1.wf()
}

impl View for AnnotationNotes {
    type V = Map<Seq<char>, DatesView>;

    open spec fn view(&self) -> Map<Seq<char>, DatesView> {
        pairs_map(note_entries(self.map@))
    }
}

/// Both registries' notes; a note in both gets the dates of both.
pub open spec fn merge_notes(a: Map<Seq<char>, DatesView>, b: Map<Seq<char>, DatesView>) -> Map<
    Seq<char>,
    DatesView,
> {
    Map::new(
        |k: Seq<char>| a.contains_key(k) || b.contains_key(k),
        |k: Seq<char>|
            if a.contains_key(k) && b.contains_key(k) {
                a[k].union(b[k])
            } else if a.contains_key(k) {
                a[k]
            } else {
                b[k]
            },
    )
}

/// A note whose dates all fall away on this weekday and base restriction,
/// though it had some: it does not apply at all.
pub open spec fn dropped(m: DatesView, weekday: Weekday, base: RestrictionView) -> bool {
    !m.is_always() && m.keep_on(weekday, base).is_always()
}

/// Each note that still applies, with its restriction on this weekday and base
/// restriction.
pub open spec fn resolved_notes(
    notes: Map<Seq<char>, DatesView>,
    weekday: Weekday,
    base: RestrictionView,
) -> Map<Seq<char>, RestrictionView> {
    Map::new(
        |k: Seq<char>| notes.contains_key(k) && !dropped(notes[k], weekday, base),
        |k: Seq<char>| notes[k].keep_on(weekday, base).resolved(),
    )
}

pub open spec fn restriction_entries(s: Seq<(String, DateRestriction)>) -> Seq<
    (Seq<char>, RestrictionView),
> {
    s.map_values(|e: (String, DateRestriction)| (e.0@, e.1@))
}

/// Index of the entry whose text is `key`.
fn find_note(v: &Vec<(String, AnnotationDates)>, key: &String) -> (r: Option<usize>)
    ensures
        r matches Some(i) ==> i < v@.len() && v@[i as int].0@ == key@,
        r is None ==> !has_key(note_entries(v@), key@),
{
    let mut i: usize = 0;
    while i < v.len()
        invariant
            i <= v@.len(),
            forall|j: int| 0 <= j < i ==> v@[j].0@ != key@,
        decreases v@.len() - i,
    {
        if v[i].0 == *key {
            return Some(i);
        }
        i = i + 1;
    }
    proof {
        if has_key(note_entries(v@), key@) {
            let j = choose|j: int|
                0 <= j < note_entries(v@).len() && note_entries(v@)[j].0 == key@;
            assert(v@[j].0@ == key@);
        }
    }
    None
}

proof fn lemma_merge_step(
    a: Map<Seq<char>, DatesView>,
    m: Map<Seq<char>, DatesView>,
    k: Seq<char>,
    v: DatesView,
)
    requires
        !m.contains_key(k),
    ensures
        merge_notes(a, m.insert(k, v)) == if merge_notes(a, m).contains_key(k) {
            merge_notes(a, m).insert(k, merge_notes(a, m)[k].union(v))
        } else {
            merge_notes(a, m).insert(k, v)
        },
{
    assert(merge_notes(a, m.insert(k, v)) =~= if merge_notes(a, m).contains_key(k) {
        merge_notes(a, m).insert(k, merge_notes(a, m)[k].union(v))
    } else {
        merge_notes(a, m).insert(k, v)
    });
}

impl AnnotationNotes {
    /// Texts are distinct and every date held is a date of the calendar.
    pub open spec fn wf(&self) -> bool {
        keys_unique(note_entries(self.map@)) && all_wf(self.map@)
    }

    /// A registry with no note.
    pub fn new() -> (r: AnnotationNotes)
        ensures
            r@ == Map::<Seq<char>, DatesView>::empty(),
            r.wf(),
    {
        let r = AnnotationNotes { map: Vec::new() };
        assert(r@ =~= Map::<Seq<char>, DatesView>::empty());
        r
    }

    /// Adds the notes of `other`; a note held by both gets the dates of both.
    pub fn extend(&mut self, other: AnnotationNotes)
        requires
            old(self).wf(),
            other.wf(),
        ensures
            final(self).wf(),
            final(self)@ == merge_notes(old(self)@, other@),
    {
        let ghost theirs = note_entries(other.map@);
        let ghost orig = other.map@;
        let mut rest = other.map;
        let ghost mut i: int = 0;
        assert(pairs_map(theirs.subrange(0, 0)) =~= Map::<Seq<char>, DatesView>::empty());
        assert(merge_notes(old(self)@, Map::<Seq<char>, DatesView>::empty()) =~= old(self)@);
        while rest.len() > 0
            invariant
                0 <= i <= orig.len(),
                theirs == note_entries(orig),
                keys_unique(theirs),
                all_wf(orig),
                rest@ == orig.subrange(i, orig.len() as int),
                self.wf(),
                self@ == merge_notes(old(self)@, pairs_map(theirs.subrange(0, i))),
            decreases rest@.len(),
        {
            let (key, dates) = rest.remove(0);
            assert(orig[i] == (key, dates));
            assert(dates.wf());
            proof {
                assert(theirs.subrange(0, i + 1) =~= theirs.subrange(0, i).push((key@, dates@)));
                assert(!has_key(theirs.subrange(0, i), key@)) by {
                    if has_key(theirs.subrange(0, i), key@) {
                        let j = choose|j: int| 0 <= j < i && theirs.subrange(0, i)[j].0 == key@;
                        assert(theirs[j].0 == theirs[i].0);
                    }
                }
                assert forall|j: int, q: int|
                    0 <= j < i && 0 <= q < i && j != q implies theirs.subrange(0, i)[j].0
                    != theirs.subrange(0, i)[q].0 by {
                    assert(theirs[j].0 != theirs[q].0);
                }
                lemma_pairs_map_push(theirs.subrange(0, i), key@, dates@);
                lemma_merge_step(old(self)@, pairs_map(theirs.subrange(0, i)), key@, dates@);
            }
            match find_note(&self.map, &key) {
                Some(j) => {
                    let ghost before = self.map@;
                    proof {
                        lemma_pairs_map_index(note_entries(before), j as int);
                    }
                    let (k, mut d) = self.map.remove(j);
                    d.extend(&dates);
                    self.map.insert(j, (k, d));
                    proof {
                        assert(self.map@ =~= before.update(j as int, (k, d)));
                        assert(note_entries(self.map@) =~= note_entries(before).update(
                            j as int,
                            (note_entries(before)[j as int].0, d@),
                        ));
                        lemma_pairs_map_update(note_entries(before), j as int, d@);
                        assert forall|q: int| 0 <= q < self.map@.len() implies (
                        #[trigger] self.map@[q]).1.wf() by {
                            if q != j {
                                assert(self.map@[q] == before[q]);
                            }
                        }
                    }
                },
                None => {
                    let ghost before = self.map@;
                    self.map.push((key, dates));
                    proof {
                        assert(note_entries(self.map@) =~= note_entries(before).push(
                            (key@, dates@),
                        ));
                        lemma_pairs_map_push(note_entries(before), key@, dates@);
                        assert forall|q: int| 0 <= q < self.map@.len() implies (
                        #[trigger] self.map@[q]).1.wf() by {
                            if q < before.len() {
                                assert(self.map@[q] == before[q]);
                            }
                        }
                    }
                },
            }
            proof {
                i = i + 1;
            }
        }
        assert(theirs.subrange(0, i) =~= theirs);
    }
}

/// Records the note `text` in the registry with no dates of its own, unless it
/// is there already.
pub fn text_date_restriction(notes: &mut AnnotationNotes, text: String)
    requires
        old(notes).wf(),
    ensures
        final(notes).wf(),
        final(notes)@ == if old(notes)@.contains_key(text@) {
            old(notes)@
        } else {
            old(notes)@.insert(text@, DatesView::empty())
        },
{
    match find_note(&notes.map, &text) {
        Some(i) => {
            proof {
                lemma_pairs_map_index(note_entries(notes.map@), i as int);
            }
        },
        None => {
            let ghost before = notes.map@;
            let d = AnnotationDates::new();
            notes.map.push((text, d));
            proof {
                assert(note_entries(notes.map@) =~= note_entries(before).push((text@, d@)));
                lemma_pairs_map_push(note_entries(before), text@, d@);
            }
        },
    }
}

impl AnnotationDates {
    /// Each note's restriction on `weekday` and on the dates that
    /// `date_restriction` includes; a note that no longer applies on any of
    /// them is left out.
    pub fn map_to_date_restrictions_by_weekday(
        map: Vec<(String, AnnotationDates)>,
        weekday: Weekday,
        date_restriction: &DateRestriction,
    ) -> (r: Vec<(String, DateRestriction)>)
        requires
            keys_unique(note_entries(map@)),
            all_wf(map@),
        ensures
            keys_unique(restriction_entries(r@)),
            pairs_map(restriction_entries(r@)) == resolved_notes(
                pairs_map(note_entries(map@)),
                weekday,
                date_restriction@,
            ),
    {
        let ghost ins = note_entries(map@);
        let ghost orig = map@;
        let mut rest = map;
        let mut out: Vec<(String, DateRestriction)> = Vec::new();
        let ghost mut i: int = 0;
        assert(pairs_map(ins.subrange(0, 0)) =~= Map::<Seq<char>, DatesView>::empty());
        assert(pairs_map(restriction_entries(out@)) =~= resolved_notes(
            pairs_map(ins.subrange(0, 0)),
            weekday,
            date_restriction@,
        ));
        while rest.len() > 0
            invariant
                0 <= i <= orig.len(),
                ins == note_entries(orig),
                keys_unique(ins),
                all_wf(orig),
                rest@ == orig.subrange(i, orig.len() as int),
                keys_unique(restriction_entries(out@)),
                forall|k: Seq<char>|
                    has_key(restriction_entries(out@), k) ==> has_key(ins.subrange(0, i), k),
                pairs_map(restriction_entries(out@)) == resolved_notes(
                    pairs_map(ins.subrange(0, i)),
                    weekday,
                    date_restriction@,
                ),
            decreases rest@.len(),
        {
            let (key, dates) = rest.remove(0);
            assert(orig[i] == (key, dates));
            assert(dates.wf());
            let ghost prefix = ins.subrange(0, i);
            proof {
                assert(ins.subrange(0, i + 1) =~= prefix.push((key@, dates@)));
                assert(!has_key(prefix, key@)) by {
                    if has_key(prefix, key@) {
                        let j = choose|j: int| 0 <= j < i && prefix[j].0 == key@;
                        assert(ins[j].0 == ins[i].0);
                    }
                }
                assert forall|j: int, q: int|
                    0 <= j < i && 0 <= q < i && j != q implies prefix[j].0 != prefix[q].0 by {
                    assert(ins[j].0 != ins[q].0);
                }
                lemma_pairs_map_push(prefix, key@, dates@);
            }
            let always = dates.is_always();
            let ghost dv = dates@;
            let kept = dates.kept_dates(weekday, date_restriction);
            let gone = !always && kept.is_always();
            let res = kept.into_date_restriction();
            let ghost out0 = out@;
            if !gone {
                out.push((key, res));
                proof {
                    assert(restriction_entries(out@) =~= restriction_entries(out0).push(
                        (key@, res@),
                    ));
                    assert(!has_key(restriction_entries(out0), key@));
                    lemma_pairs_map_push(restriction_entries(out0), key@, res@);
                }
            }
            proof {
                let p0 = pairs_map(prefix);
                assert(resolved_notes(p0.insert(key@, dv), weekday, date_restriction@) =~= if gone {
                    resolved_notes(p0, weekday, date_restriction@)
                } else {
                    resolved_notes(p0, weekday, date_restriction@).insert(key@, res@)
                });
                assert forall|k: Seq<char>|
                    has_key(restriction_entries(out@), k) implies has_key(
                    ins.subrange(0, i + 1),
                    k,
                ) by {
                    if k != key@ {
                        if !gone {
                            let j = choose|j: int|
                                0 <= j < restriction_entries(out@).len()
                                    && restriction_entries(out@)[j].0 == k;
                            assert(j < out0.len());
                            assert(restriction_entries(out0)[j].0 == k);
                            assert(has_key(restriction_entries(out0), k));
                        }
                        assert(has_key(prefix, k));
                        let j = choose|j: int| 0 <= j < prefix.len() && prefix[j].0 == k;
                        assert(ins.subrange(0, i + 1)[j].0 == k);
                    } else {
                        assert(ins.subrange(0, i + 1)[i].0 == k);
                    }
                }
                i = i + 1;
            }
        }
        assert(ins.subrange(0, i) =~= ins);
        out
    }
}

/// Each note of a row, with its restriction on `weekday` within the sailing's
/// own restriction; notes that no longer apply are left out.
pub fn annotation_notes_date_restictions(
    row_notes: AnnotationNotes,
    weekday: Weekday,
    date_restriction: &DateRestriction,
) -> (r: Vec<(String, DateRestriction)>)
    requires
        row_notes.wf(),
    ensures
        keys_unique(restriction_entries(r@)),
        pairs_map(restriction_entries(r@)) == resolved_notes(
            row_notes@,
            weekday,
            date_restriction@,
        ),
{
    AnnotationDates::map_to_date_restrictions_by_weekday(row_notes.map, weekday, date_restriction)
}

/// A note that had dates, none of which survive the weekday and base
/// restriction, is absent from the result rather than kept with no dates.
pub proof fn lemma_emptied_note_absent(
    notes: Map<Seq<char>, DatesView>,
    k: Seq<char>,
    weekday: Weekday,
    base: RestrictionView,
)
    requires
        notes.contains_key(k),
        !notes[k].is_always(),
        notes[k].keep_on(weekday, base).is_always(),
    ensures
        !resolved_notes(notes, weekday, base).contains_key(k),
{
}

/// Every note kept in the result applies on some date: none is kept with an
/// empty set of dates.
pub proof fn lemma_kept_notes_not_empty(
    notes: Map<Seq<char>, DatesView>,
    k: Seq<char>,
    weekday: Weekday,
    base: RestrictionView,
)
    requires
        resolved_notes(notes, weekday, base).contains_key(k),
    ensures
        !resolved_notes(notes, weekday, base)[k].is_never(),
        resolved_notes(notes, weekday, base)[k] matches RestrictionView::Except(s) ==> !s.is_empty(),
{
    crate::dates::lemma_resolved_canonical(notes[k].keep_on(weekday, base));
}

} // verus!
