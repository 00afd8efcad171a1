use hdr2plot::hgrm::{Decimal, OnePercentile, Percentile, HGRM, HGRMs};

fn dec(mantissa: u64, scale: u32) -> Decimal {
    Decimal::new(mantissa, scale)
}

#[test]
fn builder_sets_every_field() {
    let h = HGRM::new()
        .set_name(Some("n"))
        .set_mean(dec(1, 1))
        .set_std_deviation(dec(2, 1))
        .set_max(dec(3, 1))
        .set_total_count(4)
        .set_buckets(5)
        .set_sub_buckets(6)
        .add_percentile(dec(7, 1), dec(8, 1), 9, OnePercentile::Inf);
    assert_eq!(h.name.as_deref(), Some("n"));
    assert_eq!(h.mean, dec(1, 1));
    assert_eq!(h.std_deviation, dec(2, 1));
    assert_eq!(h.max, dec(3, 1));
    assert_eq!(h.total_count, 4);
    assert_eq!(h.buckets, 5);
    assert_eq!(h.sub_buckets, 6);
    assert_eq!(h.percentiles.len(), 1);
    assert_eq!(
        h.percentiles[0],
        Percentile::new(dec(7, 1), dec(8, 1), 9, OnePercentile::Inf)
    );
}

#[test]
fn set_percentiles_replaces_rows() {
    let rows = vec![
        Percentile::new(dec(10, 1), dec(0, 1), 1, OnePercentile::Value(dec(10, 1))),
        Percentile::new(dec(30, 1), dec(5, 1), 2, OnePercentile::Inf),
    ];
    let h = HGRM::new().set_percentiles(rows.clone());
    assert_eq!(h.percentiles, rows);
    assert_eq!(h.max_latency(), dec(30, 1));
}

#[test]
fn max_latency_compares_as_rationals() {
    // 1.50 (mantissa 150, scale 2) is below 2.1 (mantissa 21, scale 1)
    // even though 150 > 21 as integers.
    let h = HGRM::new()
        .add_percentile(dec(150, 2), dec(0, 1), 1, OnePercentile::Inf)
        .add_percentile(dec(21, 1), dec(5, 1), 2, OnePercentile::Inf);
    assert_eq!(h.max_latency(), dec(21, 1));
}

#[test]
fn collection_length_and_indexing() {
    let a = HGRM::new().set_total_count(1).add_percentile(
        dec(10, 1),
        dec(0, 1),
        1,
        OnePercentile::Inf,
    );
    let b = HGRM::new().set_total_count(2).add_percentile(
        dec(20, 1),
        dec(0, 1),
        2,
        OnePercentile::Inf,
    );
    let hs = HGRMs::new(vec![a, b]);
    assert_eq!(hs.len(), 2);
    assert_eq!(hs.get(0).total_count, 1);
    assert_eq!(hs.get(1).total_count, 2);
    assert!(hs.is_wf());
    assert_eq!(hs.max_latency(), dec(20, 1));
}

#[test]
fn equality_is_structural() {
    let make = || {
        HGRM::new().set_name(Some("x")).add_percentile(dec(10, 1), dec(0, 1), 1, OnePercentile::Inf)
    };
    assert_eq!(make(), make());
    let other = make().set_total_count(9);
    assert!(make() != other);
    // 1.0 and 1.00 are distinct representations, so distinct values.
    assert!(dec(10, 1) != dec(100, 2));
    assert_eq!(HGRMs::new(vec![make()]), HGRMs::new(vec![make()]));
    assert!(HGRMs::new(vec![make()]) != HGRMs::new(vec![make(), make()]));
}
