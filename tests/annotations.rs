use ferry_annotations::annotations::{AnnotationError, Annotations};
use ferry_annotations::calendar::{Date, DateRange, Time, Weekday};
use ferry_annotations::dates::{AnnotationDates, DateRestriction};
use ferry_annotations::normalize::normalize;
use ferry_annotations::notes::{annotation_notes_date_restictions, AnnotationNotes};

fn date(year: u32, month: u32, day: u32) -> Date {
    Date { year, month, day }
}

fn summer_2024() -> DateRange {
    DateRange { start: date(2024, 6, 1), end: date(2024, 9, 30) }
}

fn chars(s: &str) -> Vec<char> {
    s.chars().collect()
}

fn text(v: &[char]) -> String {
    v.iter().collect()
}

fn norm(s: &str) -> String {
    text(&normalize(&chars(s)))
}

fn sorted(v: &[Date]) -> Vec<Date> {
    let mut r = v.to_vec();
    r.sort_by_key(|d| (d.year, d.month, d.day));
    r.dedup();
    r
}

fn parse(texts: &[&str]) -> Result<Annotations, AnnotationError> {
    let mut a = Annotations::new();
    a.parse(&summer_2024(), texts)?;
    Ok(a)
}

fn star_entry(a: &Annotations, time: Time) -> Option<&AnnotationDates> {
    a.star_dates_by_time.iter().find(|e| e.0 == time).map(|e| &e.1)
}

fn note_keys(a: &Annotations) -> Vec<String> {
    let mut keys: Vec<String> = a.all_notes.map.iter().map(|e| e.0.clone()).collect();
    keys.sort();
    keys
}

#[test]
fn except_list_fills_except_set() {
    let a = parse(&["Except: Jul 1, Jul 4"]).unwrap();
    assert_eq!(sorted(&a.all_dates.except), vec![date(2024, 7, 1), date(2024, 7, 4)]);
    assert!(a.all_dates.only.is_empty());
    assert!(a.dg_dates.is_always());
    assert!(!a.is_dg_only);
}

#[test]
fn not_available_counts_as_except() {
    let a = parse(&["Not Available on: Aug 5 & Aug 6"]).unwrap();
    assert_eq!(sorted(&a.all_dates.except), vec![date(2024, 8, 5), date(2024, 8, 6)]);
    assert!(a.all_dates.only.is_empty());
}

#[test]
fn out_of_range_date_is_dropped() {
    let a = parse(&["Except Jan 5, Jul 1"]).unwrap();
    assert_eq!(sorted(&a.all_dates.except), vec![date(2024, 7, 1)]);
    assert!(a.all_dates.only.is_empty());
    assert!(a.dg_dates.is_always());
    assert!(a.star_dates_by_time.is_empty());
}

#[test]
fn only_list_fills_only_set() {
    let a = parse(&["Only: Jul 4, Jul 5"]).unwrap();
    assert_eq!(sorted(&a.all_dates.only), vec![date(2024, 7, 4), date(2024, 7, 5)]);
    assert!(a.all_dates.except.is_empty());
}

#[test]
fn star_time_not_available() {
    let a = parse(&["*11:00 PM Not Available on: Jul 1*"]).unwrap();
    let e = star_entry(&a, Time { hour: 23, minute: 0 }).unwrap();
    assert_eq!(sorted(&e.except), vec![date(2024, 7, 1)]);
    assert!(e.only.is_empty());
    assert!(a.all_dates.is_always());
}

#[test]
fn star_time_only_two_dates() {
    let a = parse(&["*11:00 PM Not Available on: Jul 1, Jul 2*", "*9:30 am Only on: Aug 1*"]).unwrap();
    let late = star_entry(&a, Time { hour: 23, minute: 0 }).unwrap();
    assert_eq!(sorted(&late.except), vec![date(2024, 7, 1), date(2024, 7, 2)]);
    let early = star_entry(&a, Time { hour: 9, minute: 30 }).unwrap();
    assert_eq!(sorted(&early.only), vec![date(2024, 8, 1)]);
}

#[test]
fn dg_sailing_only_dates() {
    let a = parse(&["DG Sailing only: Jul 2, Jul 3"]).unwrap();
    assert_eq!(sorted(&a.dg_dates.only), vec![date(2024, 7, 2), date(2024, 7, 3)]);
    assert!(a.dg_dates.except.is_empty());
    assert!(!a.is_dg_only);
    assert!(a.all_dates.is_always());
}

#[test]
fn dangerous_goods_only_sentence() {
    let a = parse(&["Dangerous goods only"]).unwrap();
    assert!(a.is_dg_only);
    assert!(a.all_dates.is_always());
    assert!(a.dg_dates.is_always());
    assert!(a.star_dates.is_always());
    assert!(a.star_dates_by_time.is_empty());
    assert!(a.all_notes.map.is_empty());
}

#[test]
fn no_passengers_sentences_are_dg_only() {
    assert!(parse(&["No passengers permitted - DG Sailing only"]).unwrap().is_dg_only);
    assert!(parse(&["No passengers permitted - only sails on Tuesdays"]).unwrap().is_dg_only);
}

#[test]
fn unrecognized_text_fails_with_that_text() {
    match parse(&["Some unrecognized new phrase"]) {
        Err(AnnotationError::Unrecognized { text, annotation }) => {
            assert_eq!(text, "Some unrecognized new phrase");
            assert_eq!(annotation, "Some unrecognized new phrase");
        }
        other => panic!("unexpected result: {:?}", other),
    }
}

#[test]
fn no_sailings_phrase_is_ignored() {
    let a = parse(&["No sailings available on this route for these dates"]).unwrap();
    assert!(!a.is_dg_only);
    assert!(a.all_dates.is_always());
    assert!(a.dg_dates.is_always());
    assert!(a.star_dates_by_time.is_empty());
    assert!(a.all_notes.map.is_empty());
}

#[test]
fn known_notes_are_recorded() {
    let a = parse(&[
        "Foot passengers only.",
        "*Note: This sailing departs just after midnight",
        "This sailing departs just before midnight",
        "!Saturna-bound vehicles arriving at the booth at least 15 minutes prior to sailing time are offered priority on this sailing",
    ])
    .unwrap();
    assert_eq!(
        note_keys(&a),
        vec![
            "Foot passengers only".to_string(),
            "Saturna-bound vehicles arriving at the booth at least 15 minutes prior to sailing time are offered priority on this sailing".to_string(),
            "This sailing departs just after midnight".to_string(),
            "This sailing departs just before midnight".to_string(),
        ]
    );
    assert!(a.all_notes.map.iter().all(|e| e.1.is_always()));
}

#[test]
fn compound_matches_separate_pieces() {
    let one = parse(&["Except Jul 1 ! Foot passengers only"]).unwrap();
    let two = parse(&["Except Jul 1", "! Foot passengers only"]).unwrap();
    let plain = parse(&["Except Jul 1", "Foot passengers only"]).unwrap();
    for a in [&one, &two, &plain] {
        assert_eq!(sorted(&a.all_dates.except), vec![date(2024, 7, 1)]);
        assert!(a.all_dates.only.is_empty());
        assert_eq!(note_keys(a), vec!["Foot passengers only".to_string()]);
    }
}

#[test]
fn bad_time_is_an_error() {
    match parse(&["*13:00 PM Only on: Jul 1*"]) {
        Err(AnnotationError::InvalidTime { time, .. }) => assert_eq!(time, "13:00 PM"),
        other => panic!("unexpected result: {:?}", other),
    }
}

#[test]
fn bad_date_is_an_error() {
    match parse(&["Except: Jul 1, Foo 9"]) {
        Err(AnnotationError::InvalidDate { date, annotation }) => {
            assert_eq!(date, "Foo 9");
            assert_eq!(annotation, "Except: Jul 1, Foo 9");
        }
        other => panic!("unexpected result: {:?}", other),
    }
}

#[test]
fn keyword_in_other_case_is_an_error() {
    match parse(&["except: Jul 1"]) {
        Err(AnnotationError::UnexpectedKeyword { keyword, .. }) => assert_eq!(keyword, "except"),
        other => panic!("unexpected result: {:?}", other),
    }
}

#[test]
fn first_failing_text_wins() {
    match parse(&["Except Jul 1", "Mystery one", "Mystery two"]) {
        Err(AnnotationError::Unrecognized { text, .. }) => assert_eq!(text, "Mystery one"),
        other => panic!("unexpected result: {:?}", other),
    }
}

#[test]
fn normalizer_rules() {
    assert_eq!(norm("Except April 1."), "Except Apr 1");
    assert_eq!(norm("Except Jul 1, 2024"), "Except Jul 1");
    assert_eq!(norm("Except Jul 1 & Jul 2 and Jul 3"), "Except Jul 1, Jul 2, Jul 3");
    assert_eq!(norm("Except Jul4"), "Except Jul 4");
    assert_eq!(norm("Except Jul 1 Jul 2"), "Except Jul 1, Jul 2");
    assert_eq!(norm("Except Jul 1, 2, 3"), "Except Jul 1, Jul 2, Jul 3");
    assert_eq!(norm("Except Jul 1 & 2"), "Except Jul 1, Jul 2");
    assert_eq!(norm("Jul 1, Jul 2, Jul 3 only"), "Only Jul 1, Jul 2, Jul 3");
    assert_eq!(
        norm("DG Sailing only Jul 1, no other passengers permitted"),
        "DG Sailing only Jul 1"
    );
    assert_eq!(norm("Foot passengers only"), "Foot passengers only");
}

#[test]
fn trailing_only_sentence_is_parsed() {
    let a = parse(&["Jul 4 & 5 only"]).unwrap();
    assert_eq!(sorted(&a.all_dates.only), vec![date(2024, 7, 4), date(2024, 7, 5)]);
}

#[test]
fn weekday_of_dates() {
    assert_eq!(date(2024, 7, 1).weekday(), Weekday::Monday);
    assert_eq!(date(2024, 7, 4).weekday(), Weekday::Thursday);
    assert_eq!(date(2000, 1, 1).weekday(), Weekday::Saturday);
    assert_eq!(date(2024, 2, 29).weekday(), Weekday::Thursday);
}

#[test]
fn date_tokens_within_range() {
    let r = summer_2024();
    assert_eq!(r.parse_date_within(&chars("Jul 4")), Ok(Some(date(2024, 7, 4))));
    assert_eq!(r.parse_date_within(&chars("jul 04")), Ok(Some(date(2024, 7, 4))));
    assert_eq!(r.parse_date_within(&chars("Jan 5")), Ok(None));
    assert_eq!(r.parse_date_within(&chars("Jul 32")), Err(()));
    assert_eq!(r.parse_date_within(&chars("Foo 1")), Err(()));
    let winter = DateRange { start: date(2024, 12, 1), end: date(2025, 2, 28) };
    assert_eq!(winter.parse_date_within(&chars("Jan 5")), Ok(Some(date(2025, 1, 5))));
    assert_eq!(winter.parse_date_within(&chars("Dec 5")), Ok(Some(date(2024, 12, 5))));
}

#[test]
fn twelve_hour_times() {
    assert_eq!(Time::parse_twelve_hour(&chars("11:00 PM")), Some(Time { hour: 23, minute: 0 }));
    assert_eq!(Time::parse_twelve_hour(&chars("12:30 am")), Some(Time { hour: 0, minute: 30 }));
    assert_eq!(Time::parse_twelve_hour(&chars("12:05 PM")), Some(Time { hour: 12, minute: 5 }));
    assert_eq!(Time::parse_twelve_hour(&chars("13:00 PM")), None);
    assert_eq!(Time::parse_twelve_hour(&chars("9:60 AM")), None);
}

#[test]
fn shared_date_is_dropped_from_both_sets() {
    let d = date(2024, 7, 1);
    let ad = AnnotationDates { only: vec![d], except: vec![d] };
    assert!(matches!(ad.into_date_restriction_by_weekday(Weekday::Monday), DateRestriction::All));
    let ad = AnnotationDates { only: vec![d, date(2024, 7, 8)], except: vec![d] };
    match ad.into_date_restriction_by_weekday(Weekday::Monday) {
        DateRestriction::Only(v) => assert_eq!(sorted(&v), vec![date(2024, 7, 8)]),
        other => panic!("unexpected restriction: {:?}", other),
    }
}

#[test]
fn empty_dates_resolve_to_all() {
    let ad = AnnotationDates::new();
    assert!(ad.is_always());
    assert!(matches!(ad.into_date_restriction_by_weekday(Weekday::Friday), DateRestriction::All));
}

#[test]
fn weekday_filter_is_idempotent() {
    let ad = AnnotationDates {
        only: vec![],
        except: vec![date(2024, 7, 1), date(2024, 7, 2), date(2024, 7, 8)],
    };
    let first = ad.clone().into_date_restriction_by_weekday(Weekday::Monday);
    let kept = match &first {
        DateRestriction::Except(v) => sorted(v),
        other => panic!("unexpected restriction: {:?}", other),
    };
    assert_eq!(kept, vec![date(2024, 7, 1), date(2024, 7, 8)]);
    let again = AnnotationDates { only: vec![], except: kept.clone() }
        .into_date_restriction_by_weekday(Weekday::Monday);
    match again {
        DateRestriction::Except(v) => assert_eq!(sorted(&v), kept),
        other => panic!("unexpected restriction: {:?}", other),
    }
}

#[test]
fn base_restriction_limits_dates() {
    let ad = AnnotationDates { only: vec![date(2024, 7, 1), date(2024, 7, 8)], except: vec![] };
    let base = DateRestriction::Except(vec![date(2024, 7, 8)]);
    match ad.into_date_restriction_by_weekday_and_date_restriction(Weekday::Monday, &base) {
        DateRestriction::Only(v) => assert_eq!(sorted(&v), vec![date(2024, 7, 1)]),
        other => panic!("unexpected restriction: {:?}", other),
    }
}

#[test]
fn emptied_note_is_left_out() {
    let mut notes = AnnotationNotes::new();
    let mut other = AnnotationNotes::new();
    other.map.push((
        "Tuesday note".to_string(),
        AnnotationDates { only: vec![date(2024, 7, 2)], except: vec![] },
    ));
    other.map.push((
        "Monday note".to_string(),
        AnnotationDates { only: vec![date(2024, 7, 1)], except: vec![] },
    ));
    other.map.push(("Always".to_string(), AnnotationDates::new()));
    notes.extend(other);
    let r = annotation_notes_date_restictions(notes, Weekday::Monday, &DateRestriction::All);
    let mut keys: Vec<&str> = r.iter().map(|e| e.0.as_str()).collect();
    keys.sort();
    assert_eq!(keys, vec!["Always", "Monday note"]);
    for (k, dr) in &r {
        assert!(!dr.is_never());
        if k == "Always" {
            assert!(matches!(dr, DateRestriction::All));
        } else {
            assert!(matches!(dr, DateRestriction::Only(v) if v == &vec![date(2024, 7, 1)]));
        }
    }
}

#[test]
fn notes_extend_merges_same_text() {
    let mut a = AnnotationNotes::new();
    a.map.push(("Note".to_string(), AnnotationDates { only: vec![date(2024, 7, 1)], except: vec![] }));
    let mut b = AnnotationNotes::new();
    b.map.push(("Note".to_string(), AnnotationDates { only: vec![], except: vec![date(2024, 7, 2)] }));
    a.extend(b);
    assert_eq!(a.map.len(), 1);
    assert_eq!(sorted(&a.map[0].1.only), vec![date(2024, 7, 1)]);
    assert_eq!(sorted(&a.map[0].1.except), vec![date(2024, 7, 2)]);
}

#[test]
fn restriction_includes_dates() {
    let d = date(2024, 7, 1);
    let e = date(2024, 7, 2);
    assert!(DateRestriction::All.includes_date(d));
    assert!(DateRestriction::Only(vec![d]).includes_date(d));
    assert!(!DateRestriction::Only(vec![d]).includes_date(e));
    assert!(!DateRestriction::Except(vec![d]).includes_date(d));
    assert!(DateRestriction::Except(vec![d]).includes_date(e));
    assert!(DateRestriction::Only(vec![]).is_never());
    assert!(!DateRestriction::All.is_never());
}

#[test]
fn extend_unions_both_sets() {
    let mut a = AnnotationDates { only: vec![date(2024, 7, 1)], except: vec![] };
    let b = AnnotationDates { only: vec![date(2024, 7, 1), date(2024, 7, 3)], except: vec![date(2024, 7, 2)] };
    a.extend(&b);
    assert_eq!(sorted(&a.only), vec![date(2024, 7, 1), date(2024, 7, 3)]);
    assert_eq!(a.only.len(), 2);
    assert_eq!(sorted(&a.except), vec![date(2024, 7, 2)]);
}
