use acl_offsetgen::pattern::Pattern;

#[test]
fn round_trips_through_text() {
    let pattern = Pattern::parse("48 8B 05 ? ? ? ? 48 8B 88").expect("parse");
    assert_eq!(pattern.len(), 10);
    assert_eq!(pattern.literal_count(), 6);
    assert_eq!(pattern.to_string(), "48 8B 05 ? ? ? ? 48 8B 88");
}

#[test]
fn accepts_double_question_wildcards() {
    let pattern = Pattern::parse("A1 ?? ?? ?? ??").expect("parse");
    assert_eq!(pattern.len(), 5);
    assert_eq!(pattern.literal_count(), 1);
}

#[test]
fn rejects_garbage() {
    assert!(Pattern::parse("").is_err());
    assert!(Pattern::parse("zz 01").is_err());
}

#[test]
fn finds_every_occurrence() {
    let haystack = [0x00, 0xA1, 0x11, 0x22, 0x33, 0x00, 0xA1, 0x44, 0x55, 0x66];
    let pattern = Pattern::parse("A1 ? ? ?").expect("parse");
    assert_eq!(pattern.find_all(&haystack, 16), vec![1, 6]);
}

#[test]
fn honours_the_cap() {
    let haystack = vec![0xCCu8; 64];
    let pattern = Pattern::parse("CC CC").expect("parse");
    assert_eq!(pattern.find_all(&haystack, 3).len(), 3);
}

#[test]
fn anchor_is_not_required_to_be_the_first_byte() {
    // Leading wildcard: the scan must still anchor on the 0xE8 and find the
    // match that starts one byte earlier.
    let haystack = [0x00, 0x90, 0xE8, 0x01, 0x02, 0x03, 0x04];
    let pattern = Pattern::parse("? E8 ? ? ? ?").expect("parse");
    assert_eq!(pattern.find_all(&haystack, 8), vec![1]);
}

#[test]
fn does_not_run_past_the_end() {
    let haystack = [0xA1, 0x00];
    let pattern = Pattern::parse("A1 ? ? ? ?").expect("parse");
    assert!(pattern.find_all(&haystack, 8).is_empty());
}

#[test]
fn retain_matches_narrows_candidates() {
    let haystack = [
        0xA1, 0x01, 0x02, 0x03, 0x04, 0x8B, 0xA1, 0x09, 0x08, 0x07, 0x06, 0x33,
    ];
    let short = Pattern::parse("A1 ? ? ? ?").expect("parse");
    let mut positions = short.find_all(&haystack, 32);
    assert_eq!(positions, vec![0, 6]);
    let long = Pattern::parse("A1 ? ? ? ? 8B").expect("parse");
    long.retain_matches(&haystack, &mut positions);
    assert_eq!(positions, vec![0]);
}
