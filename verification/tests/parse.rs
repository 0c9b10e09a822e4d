use makevcf::variant::{parse_variant, VariantError};

#[test]
fn multi_allelic_alternates_keep_order_and_count() {
    let variant = parse_variant("1-12345-AG-T,TC,TTT|0/1|1/1|1/2", &None).unwrap();
    assert_eq!(variant.chromosome, "1");
    assert_eq!(variant.position, 12345);
    assert_eq!(variant.reference, "AG");
    assert_eq!(variant.alternate, vec!["T", "TC", "TTT"]);
    assert_eq!(variant.genotypes, vec!["0/1", "1/1", "1/2"]);
    assert_eq!(variant.genotypes.len(), 3);
}

#[test]
fn missing_info_gives_the_placeholder() {
    let variant = parse_variant("1-100-A-T|0/1", &None).unwrap();
    assert_eq!(variant.info, ".");
}

#[test]
fn given_info_is_passed_through_unchanged() {
    let info = String::from("DP=10;AF=0.5;DB");
    let variant = parse_variant("1-100-A-T|0/1", &Some(&info)).unwrap();
    assert_eq!(variant.info, "DP=10;AF=0.5;DB");
}

#[test]
fn position_that_is_no_number_is_refused() {
    match parse_variant("1-abc-A-T|0/1", &None) {
        Err(VariantError::InvalidPosition(field)) => assert_eq!(field, "abc"),
        other => panic!("unexpected outcome: {:?}", other),
    }
}

#[test]
fn empty_position_is_refused() {
    match parse_variant("1--A-T|0/1", &None) {
        Err(VariantError::InvalidPosition(field)) => assert_eq!(field, ""),
        other => panic!("unexpected outcome: {:?}", other),
    }
}

#[test]
fn position_too_large_is_refused() {
    match parse_variant("1-340282366920938463463374607431768211456-A-T|0/1", &None) {
        Err(VariantError::InvalidPosition(field)) => {
            assert_eq!(field, "340282366920938463463374607431768211456")
        }
        other => panic!("unexpected outcome: {:?}", other),
    }
}

#[test]
fn position_may_carry_a_plus_sign_and_leading_zeros() {
    assert_eq!(parse_variant("1-+5-A-T|0/1", &None).unwrap().position, 5);
    assert_eq!(parse_variant("1-007-A-T|0/1", &None).unwrap().position, 7);
    assert_eq!(parse_variant("1-0-A-T|0/1", &None).unwrap().position, 0);
}

#[test]
fn largest_position_is_read() {
    let description = format!("1-{}-A-T|0/1", usize::MAX);
    assert_eq!(parse_variant(&description, &None).unwrap().position, usize::MAX);
}

#[test]
fn description_without_genotypes_is_refused() {
    match parse_variant("1-100-A-T", &None) {
        Err(VariantError::MissingGenotypes(description)) => assert_eq!(description, "1-100-A-T"),
        other => panic!("unexpected outcome: {:?}", other),
    }
    assert!(matches!(parse_variant("", &None), Err(VariantError::MissingGenotypes(_))));
}

#[test]
fn location_with_three_fields_is_refused() {
    match parse_variant("1-100-A|0/1", &None) {
        Err(VariantError::MalformedLocation(block)) => assert_eq!(block, "1-100-A"),
        other => panic!("unexpected outcome: {:?}", other),
    }
}

#[test]
fn location_with_five_fields_is_refused() {
    match parse_variant("chr-1-100-A-T|0/1|1/1", &None) {
        Err(VariantError::MalformedLocation(block)) => assert_eq!(block, "chr-1-100-A-T"),
        other => panic!("unexpected outcome: {:?}", other),
    }
}

#[test]
fn missing_genotypes_are_found_before_a_bad_location() {
    assert!(matches!(parse_variant("1-abc", &None), Err(VariantError::MissingGenotypes(_))));
}

#[test]
fn bad_location_is_found_before_a_bad_position() {
    assert!(matches!(parse_variant("1-abc-A|0/1", &None), Err(VariantError::MalformedLocation(_))));
}

#[test]
fn genotype_tuples_are_kept_unread() {
    let variant = parse_variant("X-7-G-C|0/1:50:3,10||1|2:x-y", &None).unwrap();
    assert_eq!(variant.genotypes, vec!["0/1:50:3,10", "", "1", "2:x-y"]);
}

#[test]
fn empty_alleles_are_accepted() {
    let variant = parse_variant("1-1--|0/1", &None).unwrap();
    assert_eq!(variant.reference, "");
    assert_eq!(variant.alternate, vec![""]);
    let variant = parse_variant("1-1-A-T,,G|0/1", &None).unwrap();
    assert_eq!(variant.alternate, vec!["T", "", "G"]);
}

#[test]
fn text_outside_ascii_is_kept() {
    let variant = parse_variant("染色体-42-Å-ß,é|0/1", &None).unwrap();
    assert_eq!(variant.chromosome, "染色体");
    assert_eq!(variant.reference, "Å");
    assert_eq!(variant.alternate, vec!["ß", "é"]);
}

#[test]
fn reading_twice_gives_the_same_variant() {
    let info = String::from("DP=3");
    let first = parse_variant("1-12345-AG-T,TC|0/1|1/1", &Some(&info)).unwrap();
    let second = parse_variant("1-12345-AG-T,TC|0/1|1/1", &Some(&info)).unwrap();
    assert_eq!(first.chromosome, second.chromosome);
    assert_eq!(first.position, second.position);
    assert_eq!(first.reference, second.reference);
    assert_eq!(first.alternate, second.alternate);
    assert_eq!(first.info, second.info);
    assert_eq!(first.genotypes, second.genotypes);
}

#[test]
fn messages_name_the_text_at_fault() {
    assert_eq!(
        parse_variant("1-100-A-T", &None).unwrap_err().message(),
        "Invalid variant format. Genotype section required: 1-100-A-T"
    );
    assert_eq!(
        parse_variant("1-100-A|0/1", &None).unwrap_err().message(),
        "Invalid variant format. Expected format CHR-POS-REF-ALT, but got: 1-100-A"
    );
    assert_eq!(
        parse_variant("1-abc-A-T|0/1", &None).unwrap_err().message(),
        "Invalid variant format. Position is no non-negative integer: abc"
    );
}
