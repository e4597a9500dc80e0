use degreepath::rules::course::Rule;

#[test]
fn pretty_print() {
    let input = Rule { course: "DEPT 111".into(), ..Default::default() };
    let expected = "DEPT 111";
    assert_eq!(expected, input.print().unwrap());

    let input = Rule {
        course: "DEPT 111".into(),
        semester: Some("Fall".to_string()),
        year: Some(2015),
        ..Default::default()
    };
    let expected = "DEPT 111 (Fall 2015)";
    assert_eq!(expected, input.print().unwrap());

    let input = Rule {
        course: "DEPT 111".into(),
        term: Some("2015-1".to_string()),
        ..Default::default()
    };
    let expected = "DEPT 111 (2015-1)";
    assert_eq!(expected, input.print().unwrap());

    let input = Rule {
        course: "DEPT 111".into(),
        semester: Some("Fall".to_string()),
        ..Default::default()
    };
    let expected = "DEPT 111 (Fall)";
    assert_eq!(expected, input.print().unwrap());

    let input = Rule { course: "DEPT 111".into(), year: Some(2015), ..Default::default() };
    let expected = "DEPT 111 (2015-16)";
    assert_eq!(expected, input.print().unwrap());

    let input = Rule {
        course: "DEPT 111".into(),
        section: Some("A".to_string()),
        ..Default::default()
    };
    let expected = "DEPT 111A";
    assert_eq!(expected, input.print().unwrap());

    let input = Rule { course: "DEPT 111".into(), lab: Some(true), ..Default::default() };
    let expected = "DEPT 111 (Lab)";
    assert_eq!(expected, input.print().unwrap());

    let input = Rule {
        course: "DEPT 111".into(),
        semester: Some("Fall".to_string()),
        year: Some(2015),
        lab: Some(true),
        ..Default::default()
    };
    let expected = "DEPT 111 (Lab; Fall 2015)";
    assert_eq!(expected, input.print().unwrap());

    let input = Rule {
        course: "DEPT 111".into(),
        section: Some("A".to_string()),
        semester: Some("Fall".to_string()),
        year: Some(2015),
        lab: Some(true),
        term: None,
        can_match_used: None,
    };
    let expected = "DEPT 111A (Lab; Fall 2015)";
    assert_eq!(expected, input.print().unwrap());
}
