use gobetween::message::{matches_many, Number, NumberMatch, Position, Range};
use gobetween::range::RangeError;
use std::str::FromStr;

#[test]
fn any_matches_every_number() {
    assert_eq!(Number::Any.matches(0), Some(NumberMatch::Value(0)));
    assert_eq!(Number::Any.matches(u32::MAX), Some(NumberMatch::Value(u32::MAX)));
}

#[test]
fn value_matches_itself_only() {
    assert_eq!(Number::Value(60).matches(60), Some(NumberMatch::Value(60)));
    assert_eq!(Number::Value(60).matches(61), None);
}

#[test]
fn range_matches_within_its_ends() {
    let range = Number::Range(Range(10, 20));
    assert_eq!(range.matches(9), None);
    assert_eq!(range.matches(21), None);
    assert_eq!(
        range.matches(10),
        Some(NumberMatch::Range(Position { offset: 0, span: 10 }))
    );
    assert_eq!(
        range.matches(13),
        Some(NumberMatch::Range(Position { offset: 3, span: 10 }))
    );
    assert_eq!(
        range.matches(20),
        Some(NumberMatch::Range(Position { offset: 10, span: 10 }))
    );
}

#[test]
fn inverted_range_matches_nothing_and_generates_nothing() {
    let range = Number::Range(Range(20, 10));
    assert!(!Range(20, 10).contains(15));
    assert_eq!(range.matches(15), None);
    assert_eq!(range.generate(NumberMatch::Range(Position { offset: 1, span: 2 })), None);
}

#[test]
fn generate_by_kind_of_witness() {
    let position = NumberMatch::Range(Position { offset: 1, span: 2 });
    assert_eq!(Number::Any.generate(NumberMatch::Value(7)), Some(7));
    assert_eq!(Number::Any.generate(position), None);
    assert_eq!(Number::Value(3).generate(NumberMatch::Value(7)), Some(3));
    assert_eq!(Number::Value(3).generate(position), None);
    assert_eq!(Number::Range(Range(0, 10)).generate(NumberMatch::Value(7)), None);
    assert_eq!(Number::Range(Range(0, 10)).generate(position), Some(5));
}

#[test]
fn velocity_scaling() {
    let witness = Number::Range(Range(0, 127)).matches(64).unwrap();
    assert_eq!(witness, NumberMatch::Range(Position { offset: 64, span: 127 }));
    assert_eq!(Number::Range(Range(0, 1023)).generate(witness), Some(516));
}

#[test]
fn range_maps_onto_range_linearly() {
    let from = Number::Range(Range(0, 127));
    let to = Number::Range(Range(0, 16383));
    assert_eq!(to.generate(from.matches(0).unwrap()), Some(0));
    assert_eq!(to.generate(from.matches(127).unwrap()), Some(16383));
    assert_eq!(to.generate(from.matches(64).unwrap()), Some(8256));
    let shifted = Number::Range(Range(100, 200));
    assert_eq!(shifted.generate(Number::Range(Range(10, 20)).matches(13).unwrap()), Some(130));
    let narrow = Number::Range(Range(5, 6));
    assert_eq!(narrow.generate(from.matches(63).unwrap()), Some(5));
    assert_eq!(narrow.generate(from.matches(64).unwrap()), Some(6));
}

#[test]
fn ties_round_to_the_even_neighbour() {
    let half = NumberMatch::Range(Position { offset: 1, span: 2 });
    assert_eq!(Number::Range(Range(0, 1)).generate(half), Some(0));
    assert_eq!(Number::Range(Range(1, 2)).generate(half), Some(2));
    assert_eq!(Number::Range(Range(0, 3)).generate(half), Some(2));
    assert_eq!(Number::Range(Range(0, 5)).generate(half), Some(2));
    assert_eq!(Number::Range(Range(0, 7)).generate(half), Some(4));
    assert_eq!(Number::Range(Range(2, 3)).generate(half), Some(2));
    assert_eq!(Number::Range(Range(3, 4)).generate(half), Some(4));
}

#[test]
fn generate_stays_within_the_range() {
    let beyond = NumberMatch::Range(Position { offset: 3, span: 2 });
    assert_eq!(Number::Range(Range(10, 20)).generate(beyond), Some(20));
    let far = NumberMatch::Range(Position { offset: u32::MAX, span: 1 });
    assert_eq!(Number::Range(Range(0, u32::MAX)).generate(far), Some(u32::MAX));
    let end = NumberMatch::Range(Position { offset: u32::MAX, span: u32::MAX });
    assert_eq!(Number::Range(Range(0, u32::MAX)).generate(end), Some(u32::MAX));
    assert_eq!(Number::Range(Range(u32::MAX, u32::MAX)).generate(end), Some(u32::MAX));
}

#[test]
fn a_range_of_one_number_maps_to_the_lower_end() {
    let witness = Number::Range(Range(7, 7)).matches(7).unwrap();
    assert_eq!(witness, NumberMatch::Range(Position { offset: 0, span: 0 }));
    assert_eq!(Number::Range(Range(10, 20)).generate(witness), Some(10));
    assert_eq!(Number::Range(Range(7, 7)).generate(witness), Some(7));
}

#[test]
fn what_a_specifier_matched_it_generates_again() {
    let specs = [
        Number::Any,
        Number::Value(64),
        Number::Range(Range(0, 127)),
        Number::Range(Range(60, 67)),
        Number::Range(Range(64, 64)),
        Number::Range(Range(3, 1000)),
    ];
    for spec in specs {
        let witness = spec.matches(64).unwrap();
        assert_eq!(spec.generate(witness), Some(64));
    }
}

#[test]
fn the_map_between_ranges_keeps_the_order() {
    let from = Number::Range(Range(0, 127));
    let to = Number::Range(Range(3, 50));
    let mut last = 0;
    for n in 0..=127 {
        let out = to.generate(from.matches(n).unwrap()).unwrap();
        assert!(last <= out);
        assert!(3 <= out && out <= 50);
        last = out;
    }
    assert_eq!(last, 50);
}

#[test]
fn matches_many_finds_the_first() {
    let specs = vec![Number::Value(1), Number::Range(Range(0, 10)), Number::Any];
    assert_eq!(matches_many(&specs, 1), Some((0, NumberMatch::Value(1))));
    assert_eq!(
        matches_many(&specs, 5),
        Some((1, NumberMatch::Range(Position { offset: 5, span: 10 })))
    );
    assert_eq!(matches_many(&specs, 11), Some((2, NumberMatch::Value(11))));
    assert_eq!(matches_many(&vec![Number::Value(1), Number::Value(2)], 3), None);
    assert_eq!(matches_many(&vec![], 3), None);
}

#[test]
fn default_is_any() {
    assert_eq!(Number::default_vec(), vec![Number::Any]);
}

#[test]
fn range_from_text() {
    assert_eq!(Range::parse("3-10"), Ok(Range(3, 10)));
    assert_eq!(Range::parse("0-127"), Ok(Range(0, 127)));
    assert_eq!(Range::parse("  3 - 10\t"), Ok(Range(3, 10)));
    assert_eq!(Range::parse("+3-+10"), Ok(Range(3, 10)));
    assert_eq!(Range::parse("007-7"), Ok(Range(7, 7)));
    assert_eq!(Range::parse("0-4294967295"), Ok(Range(0, u32::MAX)));
    assert_eq!(Range::parse("\u{a0}1\u{2003}-\u{3000}2\n"), Ok(Range(1, 2)));
}

#[test]
fn range_from_text_errors() {
    assert_eq!(Range::parse(""), Err(RangeError::NoDash));
    assert_eq!(Range::parse("310"), Err(RangeError::NoDash));
    assert_eq!(Range::parse("1-2-3"), Err(RangeError::TooManyDashes));
    assert_eq!(Range::parse("a-b-c"), Err(RangeError::TooManyDashes));
    assert_eq!(Range::parse("--"), Err(RangeError::TooManyDashes));
    assert_eq!(Range::parse("-3"), Err(RangeError::BadLeft));
    assert_eq!(Range::parse("a-3"), Err(RangeError::BadLeft));
    assert_eq!(Range::parse("a-b"), Err(RangeError::BadLeft));
    assert_eq!(Range::parse("1 2-3"), Err(RangeError::BadLeft));
    assert_eq!(Range::parse("+-3"), Err(RangeError::BadLeft));
    assert_eq!(Range::parse("4294967296-4294967297"), Err(RangeError::BadLeft));
    assert_eq!(Range::parse("3-"), Err(RangeError::BadRight));
    assert_eq!(Range::parse("3-x"), Err(RangeError::BadRight));
    assert_eq!(Range::parse("3-4294967296"), Err(RangeError::BadRight));
    assert_eq!(Range::parse("3-99999999999999999999999"), Err(RangeError::BadRight));
    assert_eq!(Range::parse("3-1.5"), Err(RangeError::BadRight));
    assert_eq!(Range::parse("10-3"), Err(RangeError::Inverted));
}

#[test]
fn range_from_str_speaks_in_words() {
    assert_eq!(Range::from_str("3-10"), Ok(Range(3, 10)));
    assert_eq!(Range::from_str("310"), Err("No number after `-`"));
    assert_eq!(Range::from_str("1-2-3"), Err("Too many `-`s"));
    assert_eq!(Range::from_str("x-3"), Err("Couldn't parse number on left of `-`"));
    assert_eq!(Range::from_str("3-x"), Err("Couldn't parse number on right of `-`"));
    assert_eq!(Range::from_str("10-3"), Err("The range ends before it starts"));
}

#[test]
fn number_text_agrees_with_std() {
    for text in ["0", "42", "+42", "0042", "4294967295", "4294967296", "", "+", "4 2", "٣", "1e3"] {
        let ours = Range::parse(&format!("{text}-4294967295")).ok().map(|r| r.0);
        assert_eq!(ours, text.parse::<u32>().ok());
    }
}
