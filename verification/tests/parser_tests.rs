use hdr2plot::hgrm::{Decimal, OnePercentile, HGRM, HGRMs};
use hdr2plot::parser::parse;

fn dec(mantissa: u64, scale: u32) -> Decimal {
    Decimal::new(mantissa, scale)
}

fn fixture_rows(h: HGRM) -> HGRM {
    h.add_percentile(dec(189, 3), dec(0, 6), 1, OnePercentile::Value(dec(100, 2)))
        .add_percentile(dec(2845, 3), dec(100000, 6), 348248, OnePercentile::Value(dec(111, 2)))
        .add_percentile(dec(3603, 3), dec(200000, 6), 695644, OnePercentile::Value(dec(125, 2)))
        .add_percentile(dec(4135, 3), dec(300000, 6), 1043796, OnePercentile::Value(dec(143, 2)))
        .add_percentile(dec(4551, 3), dec(400000, 6), 1391678, OnePercentile::Value(dec(167, 2)))
        .add_percentile(dec(4919, 3), dec(500000, 6), 1740028, OnePercentile::Value(dec(200, 2)))
        .add_percentile(dec(5095, 3), dec(550000, 6), 1914665, OnePercentile::Value(dec(222, 2)))
        .add_percentile(dec(64767, 3), dec(1000000, 6), 3477000, OnePercentile::Inf)
}

#[test]
fn test_parse() {
    let data = r#"
       Value   Percentile   TotalCount 1/(1-Percentile)

       0.189     0.000000            1         1.00
       2.845     0.100000       348248         1.11
       3.603     0.200000       695644         1.25
       4.135     0.300000      1043796         1.43
       4.551     0.400000      1391678         1.67
       4.919     0.500000      1740028         2.00
       5.095     0.550000      1914665         2.22
      64.767     1.000000      3477000          inf
#[Mean    =        4.881, StdDeviation   =        1.777]
#[Max     =       64.736, Total count    =      3477000]
#[Buckets =           27, SubBuckets     =         2048]
"#;

    let parsed = parse(data).unwrap();

    let expected = fixture_rows(
        HGRM::new()
            .set_mean(dec(4881, 3))
            .set_std_deviation(dec(1777, 3))
            .set_max(dec(64736, 3))
            .set_total_count(3477000)
            .set_buckets(27)
            .set_sub_buckets(2048),
    );

    assert_eq!(parsed, HGRMs::new(vec![expected]))
}

#[test]
fn test_named() {
    let data = r#"
=== Name 1 ===
       Value   Percentile   TotalCount 1/(1-Percentile)

       0.189     0.000000            1         1.00
       2.845     0.100000       348248         1.11
       3.603     0.200000       695644         1.25
       4.135     0.300000      1043796         1.43
       4.551     0.400000      1391678         1.67
       4.919     0.500000      1740028         2.00
       5.095     0.550000      1914665         2.22
      64.767     1.000000      3477000          inf
#[Mean    =        4.881, StdDeviation   =        1.777]
#[Max     =       64.736, Total count    =      3477000]
#[Buckets =           27, SubBuckets     =         2048]
"#;

    let parsed = parse(data).unwrap();

    let expected = fixture_rows(
        HGRM::new()
            .set_name(Some("Name 1"))
            .set_mean(dec(4881, 3))
            .set_std_deviation(dec(1777, 3))
            .set_max(dec(64736, 3))
            .set_total_count(3477000)
            .set_buckets(27)
            .set_sub_buckets(2048),
    );

    assert_eq!(parsed, HGRMs::new(vec![expected]))
}

fn small_doc() -> &'static str {
    r#"
       Value   Percentile   TotalCount 1/(1-Percentile)

       0.500     0.000000            1         2.22
       9.250     1.000000            7          inf
#[Mean    =        4.881, StdDeviation   =        1.777]
#[Max     =        9.250, Total count    =            7]
#[Buckets =           27, SubBuckets     =         2048]
"#
}

#[test]
fn one_percentile_variants() {
    let parsed = parse(small_doc()).unwrap();
    let h = parsed.get(0);
    assert_eq!(h.percentiles[0].one_percentile, OnePercentile::Value(dec(222, 2)));
    assert_eq!(h.percentiles[1].one_percentile, OnePercentile::Inf);
}

#[test]
fn bare_integer_value_rejected() {
    let data = r#"
       Value   Percentile   TotalCount 1/(1-Percentile)

       5     0.000000            1         1.00
       9.250     1.000000            7          inf
#[Mean    =        4.881, StdDeviation   =        1.777]
#[Max     =        9.250, Total count    =            7]
#[Buckets =           27, SubBuckets     =         2048]
"#;
    assert!(parse(data).is_err());
}

#[test]
fn header_token_missing_fails() {
    let data = r#"
       Value   Percentile   1/(1-Percentile)

       0.500     0.000000            1         1.00
#[Mean    =        4.881, StdDeviation   =        1.777]
#[Max     =        9.250, Total count    =            7]
#[Buckets =           27, SubBuckets     =         2048]
"#;
    assert!(parse(data).is_err());
}

#[test]
fn header_tokens_misordered_fail() {
    let data = r#"
       Percentile   Value   TotalCount 1/(1-Percentile)

       0.500     0.000000            1         1.00
#[Mean    =        4.881, StdDeviation   =        1.777]
#[Max     =        9.250, Total count    =            7]
#[Buckets =           27, SubBuckets     =         2048]
"#;
    assert!(parse(data).is_err());
}

#[test]
fn two_sections_concatenated() {
    let one = small_doc();
    let data = format!("{}{}", one, one);
    let parsed = parse(&data).unwrap();
    assert_eq!(parsed.len(), 2);
    assert_eq!(parsed.get(0).total_count, 7);
    assert_eq!(parsed.get(1).total_count, 7);
}

#[test]
fn name_absent_without_header() {
    let parsed = parse(small_doc()).unwrap();
    assert_eq!(parsed.get(0).name, None);
}

#[test]
fn name_trimmed_of_whitespace() {
    let data = format!("=====   padded name   ====={}", small_doc());
    let parsed = parse(&data).unwrap();
    assert_eq!(parsed.get(0).name.as_deref(), Some("padded name"));
}

#[test]
fn trailing_text_is_ignored() {
    let data = format!("{}\nleftover text that matches no section", small_doc());
    let parsed = parse(&data).unwrap();
    assert_eq!(parsed.len(), 1);
}

#[test]
fn empty_document_fails() {
    assert!(parse("").is_err());
    assert!(parse("   \n  ").is_err());
}

#[test]
fn long_decimal_tokens_parse() {
    let data = r#"
       Value   Percentile   TotalCount 1/(1-Percentile)

       99999999999999999999.9     0.000000            1         1.000000000000000000001
       1.000000000000000000001     1.000000            7          inf
#[Mean    =        4.881, StdDeviation   =        1.777]
#[Max     =        9.250, Total count    =            7]
#[Buckets =           27, SubBuckets     =         2048]
"#;
    let parsed = parse(data).unwrap();
    let h = parsed.get(0);
    // twenty-one nines of mantissa: beyond any 64-bit word.
    assert_eq!(h.percentiles[0].value.digits, vec![9u8; 21]);
    assert_eq!(h.percentiles[0].value.scale, 1);
    // one, twenty zeros, one: 21 fraction digits.
    let mut expected = vec![1u8];
    expected.extend(vec![0u8; 20]);
    expected.push(1);
    assert_eq!(h.percentiles[1].value.digits, expected);
    assert_eq!(h.percentiles[1].value.scale, 21);
    match &h.percentiles[0].one_percentile {
        hdr2plot::hgrm::OnePercentile::Value(d) => {
            assert_eq!(d.digits, {
                let mut e = vec![1u8];
                e.extend(vec![0u8; 20]);
                e.push(1);
                e
            });
            assert_eq!(d.scale, 21);
        }
        _ => panic!("expected a decimal one-percentile"),
    }
}

#[test]
fn leading_zeros_do_not_change_the_value() {
    let a = parse(
        r#"
       Value   Percentile   TotalCount 1/(1-Percentile)

       007.50     1.000000            7          inf
#[Mean    =        4.881, StdDeviation   =        1.777]
#[Max     =        9.250, Total count    =            7]
#[Buckets =           27, SubBuckets     =         2048]
"#,
    )
    .unwrap();
    assert_eq!(a.get(0).percentiles[0].value, hdr2plot::hgrm::Decimal::new(750, 2));
}

#[test]
fn count_overflow_fails() {
    let data = r#"
       Value   Percentile   TotalCount 1/(1-Percentile)

       0.500     0.000000   99999999999999999999999999         1.00
#[Mean    =        4.881, StdDeviation   =        1.777]
#[Max     =        9.250, Total count    =            7]
#[Buckets =           27, SubBuckets     =         2048]
"#;
    assert!(parse(data).is_err());
}

#[test]
fn max_latency_over_collection() {
    let one = small_doc();
    let data = format!("{}{}", one, one);
    let parsed = parse(&data).unwrap();
    assert_eq!(parsed.max_latency(), dec(9250, 3));

    let big = parse(
        r#"
       Value   Percentile   TotalCount 1/(1-Percentile)

       0.189     0.000000            1         1.00
      64.767     1.000000      3477000          inf
#[Mean    =        4.881, StdDeviation   =        1.777]
#[Max     =       64.736, Total count    =      3477000]
#[Buckets =           27, SubBuckets     =         2048]
"#,
    )
    .unwrap();
    assert_eq!(big.max_latency(), dec(64767, 3));
    assert_eq!(big.get(0).max_latency(), dec(64767, 3));
}
