use error_details::BadRequest;

#[test]
fn gen_bad_request() {
    let mut br_details = BadRequest::empty();
    let formatted = format!("{:?}", br_details);

    println!("empty BadRequest -> {formatted}");

    let expected = "BadRequest { field_violations: [] }";

    assert!(
        formatted.eq(expected),
        "empty BadRequest differs from expected result"
    );

    assert!(
        br_details.has_violations() == false,
        "empty BadRequest returns 'true' from .has_violations()"
    );

    br_details
        .add_violation("field_a", "description_a")
        .add_violation("field_b", "description_b");

    let formatted = format!("{:?}", br_details);

    println!("filled BadRequest -> {formatted}");

    let expected_filled = "BadRequest { field_violations: [FieldViolation { field: \"field_a\", description: \"description_a\" }, FieldViolation { field: \"field_b\", description: \"description_b\" }] }";

    assert!(
        formatted.eq(expected_filled),
        "filled BadRequest differs from expected result"
    );

    assert!(
        br_details.has_violations() == true,
        "filled BadRequest returns 'false' from .has_violations()"
    );

    let gen_any = match br_details.into_any() {
        Err(error) => panic!("Error generating Any from BadRequest: {:?}", error),
        Ok(gen_any) => gen_any,
    };
    let formatted = format!("{:?}", gen_any);

    println!("Any generated from BadRequest -> {formatted}");

    let expected = "Any { type_url: \"type.googleapis.com/google.rpc.BadRequest\", value: [10, 24, 10, 7, 102, 105, 101, 108, 100, 95, 97, 18, 13, 100, 101, 115, 99, 114, 105, 112, 116, 105, 111, 110, 95, 97, 10, 24, 10, 7, 102, 105, 101, 108, 100, 95, 98, 18, 13, 100, 101, 115, 99, 114, 105, 112, 116, 105, 111, 110, 95, 98] }";

    assert!(
        formatted.eq(expected),
        "Any from filled BadRequest differs from expected result"
    );

    let br_details = match BadRequest::from_any(gen_any) {
        Err(error) => panic!("Error generating BadRequest from Any: {:?}", error),
        Ok(from_any) => from_any,
    };

    let formatted = format!("{:?}", br_details);

    println!("BadRequest generated from Any -> {formatted}");

    assert!(
        formatted.eq(expected_filled),
        "BadRequest from Any differs from expected result"
    );
}

#[test]
fn empty_envelope_round_trip() {
    let empty = BadRequest::empty();
    let any = empty.into_any().unwrap();
    assert_eq!(any.type_url, "type.googleapis.com/google.rpc.BadRequest");
    assert!(any.value.is_empty(), "empty BadRequest must encode to no bytes");

    let back = BadRequest::from_any(any).unwrap();
    assert!(!back.has_violations());
    assert_eq!(back.field_violations.len(), 0);
}

#[test]
fn with_violation_holds_exactly_one() {
    let br = BadRequest::with_violation("user.name", "must not be blank");
    assert!(br.has_violations());
    assert_eq!(br.field_violations.len(), 1);
    assert_eq!(br.field_violations[0].field, "user.name");
    assert_eq!(br.field_violations[0].description, "must not be blank");
}

#[test]
fn has_violations_tracks_appends() {
    let mut br = BadRequest::empty();
    assert!(!br.has_violations());
    br.add_violation("a", "first");
    assert!(br.has_violations());
    br.add_violation("b", "second").add_violation("c", "third");
    assert!(br.has_violations());
    assert_eq!(br.field_violations.len(), 3);
    assert_eq!(br.field_violations[0].field, "a");
    assert_eq!(br.field_violations[1].field, "b");
    assert_eq!(br.field_violations[2].field, "c");
}

#[test]
fn type_url_is_fixed_whatever_the_content() {
    assert_eq!(
        BadRequest::TYPE_URL,
        "type.googleapis.com/google.rpc.BadRequest"
    );
    let empty_any = BadRequest::empty().into_any().unwrap();
    let filled_any = BadRequest::with_violation("f", "d").into_any().unwrap();
    assert_eq!(empty_any.type_url, BadRequest::TYPE_URL);
    assert_eq!(filled_any.type_url, BadRequest::TYPE_URL);
}

#[test]
fn round_trip_keeps_non_ascii_strings() {
    let mut br = BadRequest::empty();
    br.add_violation("café.name", "champ non rempli ✓")
        .add_violation("поле", "пустое значение")
        .add_violation("emoji", "🦀🦀");
    let any = br.into_any().unwrap();
    let back = BadRequest::from_any(any).unwrap();
    assert_eq!(back.field_violations.len(), 3);
    assert_eq!(back.field_violations[0].field, "café.name");
    assert_eq!(back.field_violations[0].description, "champ non rempli ✓");
    assert_eq!(back.field_violations[1].field, "поле");
    assert_eq!(back.field_violations[1].description, "пустое значение");
    assert_eq!(back.field_violations[2].field, "emoji");
    assert_eq!(back.field_violations[2].description, "🦀🦀");
}

#[test]
fn round_trip_keeps_empty_strings() {
    let mut br = BadRequest::empty();
    br.add_violation("", "")
        .add_violation("only_field", "")
        .add_violation("", "only description");
    let any = br.into_any().unwrap();
    let back = BadRequest::from_any(any).unwrap();
    assert_eq!(back.field_violations.len(), 3);
    assert_eq!(back.field_violations[0].field, "");
    assert_eq!(back.field_violations[0].description, "");
    assert_eq!(back.field_violations[1].field, "only_field");
    assert_eq!(back.field_violations[1].description, "");
    assert_eq!(back.field_violations[2].field, "");
    assert_eq!(back.field_violations[2].description, "only description");
}
