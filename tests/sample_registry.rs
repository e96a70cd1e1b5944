use genomics::{CsvBuilder, GenomicsError, Loci, LociExt, Locus, Named, Observation, Sample};

fn allele(i: &str, l: &str, v: &str) -> Observation {
    Observation::Allele(i.to_string(), l.to_string(), v.to_string())
}

fn ok_all(obs: Vec<Observation>) -> Vec<Result<Observation, GenomicsError>> {
    obs.into_iter().map(Ok).collect()
}

fn matrix_rows(sample: &Sample) -> Vec<Vec<u32>> {
    let m = sample.matrix();
    (0..m.n_rows()).map(|r| (0..m.n_cols()).map(|c| m.get(r, c)).collect()).collect()
}

#[test]
fn scenario_two_individuals_one_locus() {
    let mut sample = Sample::new();
    sample.observe(ok_all(vec![allele("ind1", "L1", "a"), allele("ind2", "L1", "b")])).unwrap();
    assert_eq!(sample.loci_names(), vec!["L1".to_string()]);
    assert_eq!(sample.variations("L1").unwrap(), vec!["a".to_string(), "b".to_string()]);
    assert!(sample.flush().is_ok());
    assert_eq!(matrix_rows(&sample), vec![vec![1, 0], vec![0, 1]]);
    assert_eq!(sample.matrix().locus_ranges(), vec![(0, 2)]);
}

#[test]
fn scenario_clonal_individuals_have_identical_rows() {
    let mut sample = Sample::new();
    sample
        .observe(ok_all(vec![
            allele("x", "L1", "a"),
            allele("x", "L2", "c"),
            allele("y", "L1", "a"),
            allele("y", "L2", "c"),
        ]))
        .unwrap();
    assert!(sample.prepare_index_of_association().is_ok());
    let rows = matrix_rows(&sample);
    assert_eq!(rows.len(), 2);
    assert_eq!(rows[0], rows[1]);
    assert_eq!(rows[0], vec![1, 1]);
}

#[test]
fn scenario_group_and_meta_without_alleles() {
    let mut sample = Sample::new();
    sample
        .observe(ok_all(vec![
            Observation::Group("ind1".to_string(), "G1".to_string()),
            Observation::Meta("ind1".to_string(), "site".to_string(), "farmA".to_string()),
        ]))
        .unwrap();
    let ind = sample.individual("ind1").unwrap();
    assert!(ind.in_group("G1"));
    assert_eq!(ind.n_groups(), 1);
    assert_eq!(ind.meta("site"), Some("farmA".to_string()));
    assert_eq!(ind.meta("other"), None);
    assert!(sample.loci_names().is_empty());
}

#[test]
fn ingestion_order_does_not_change_canonical_order() {
    let obs = vec![
        allele("i2", "Lz", "q"),
        allele("i1", "La", "b"),
        allele("i3", "Lz", "a"),
        allele("i1", "La", "a"),
        allele("i2", "Lm", "x"),
    ];
    let mut reversed = Sample::new();
    reversed.observe(ok_all(obs.iter().rev().map(|o| match o {
        Observation::Allele(a, b, c) => allele(a, b, c),
        _ => unreachable!(),
    }).collect())).unwrap();
    let mut forward = Sample::new();
    forward.observe(ok_all(obs)).unwrap();
    assert_eq!(forward.loci_names(), vec!["La".to_string(), "Lm".to_string(), "Lz".to_string()]);
    assert_eq!(forward.loci_names(), reversed.loci_names());
    for l in ["La", "Lm", "Lz", "missing"] {
        assert_eq!(forward.variations(l), reversed.variations(l));
    }
    assert_eq!(forward.variations("Lz").unwrap(), vec!["a".to_string(), "q".to_string()]);
}

#[test]
fn locus_range_sums_count_observations() {
    let mut sample = Sample::new();
    sample
        .observe(ok_all(vec![
            allele("i1", "L1", "a"),
            allele("i1", "L1", "a"),
            allele("i1", "L1", "b"),
            allele("i1", "L2", "z"),
            allele("i2", "L2", "y"),
        ]))
        .unwrap();
    sample.flush().unwrap();
    let rows = matrix_rows(&sample);
    let ranges = sample.matrix().locus_ranges();
    assert_eq!(ranges, vec![(0, 2), (2, 4)]);
    let sum = |r: usize, l: usize| -> u32 { (ranges[l].0..ranges[l].1).map(|c| rows[r][c]).sum() };
    assert_eq!(sum(0, 0), 3);
    assert_eq!(sum(0, 1), 1);
    assert_eq!(sum(1, 0), 0);
    assert_eq!(sum(1, 1), 1);
    assert_eq!(rows[0], vec![2, 1, 0, 1]);
}

#[test]
fn flushing_twice_gives_the_same_matrix() {
    let mut sample = Sample::new();
    sample.observe(ok_all(vec![allele("a", "L", "1"), allele("b", "L", "2"), allele("b", "M", "3")])).unwrap();
    sample.flush().unwrap();
    let first = matrix_rows(&sample);
    let first_ranges = sample.matrix().locus_ranges();
    sample.flush().unwrap();
    assert_eq!(matrix_rows(&sample), first);
    assert_eq!(sample.matrix().locus_ranges(), first_ranges);
    assert!(!sample.stale());
}

#[test]
fn registration_marks_stale_and_rebuild_clears_it() {
    let mut sample = Sample::new();
    assert!(!sample.stale());
    let a = sample.allele("L", "v");
    assert_eq!((a.locus(), a.variation()), ("L", "v"));
    assert!(sample.stale());
    let g = sample.group("G");
    assert_eq!(g.name(), "G");
    sample.apply(&allele("i", "L", "v"));
    assert!(sample.rebuild().is_ok());
    assert!(!sample.stale());
    assert_eq!(matrix_rows(&sample), vec![vec![1]]);
}

#[test]
fn flush_with_columns_but_no_individual_is_a_shape_error() {
    let mut sample = Sample::new();
    sample.allele("L", "v");
    assert!(matches!(sample.flush(), Err(GenomicsError::Shape)));
    assert!(sample.stale());
}

#[test]
fn flush_with_individuals_but_no_column_is_a_shape_error() {
    let mut sample = Sample::new();
    sample.apply(&Observation::Group("i".to_string(), "G".to_string()));
    assert!(matches!(sample.flush(), Err(GenomicsError::Shape)));
}

#[test]
fn flush_of_empty_sample_is_empty_matrix() {
    let mut sample = Sample::new();
    assert!(sample.flush().is_ok());
    assert_eq!(sample.matrix().n_rows(), 0);
    assert_eq!(sample.matrix().n_cols(), 0);
}

#[test]
fn statistic_needs_two_individuals() {
    let mut sample = Sample::new();
    sample.apply(&allele("i", "L", "v"));
    assert!(matches!(sample.prepare_index_of_association(), Err(GenomicsError::TooFewIndividuals)));
}

#[test]
fn observe_stops_at_first_error() {
    let mut sample = Sample::new();
    let r = sample.observe(vec![
        Ok(allele("i", "L", "v")),
        Err(GenomicsError::Ingestion("bad row".to_string())),
        Ok(allele("i", "M", "w")),
    ]);
    match r {
        Err(GenomicsError::Ingestion(m)) => assert_eq!(m, "bad row"),
        _ => panic!("expected an ingestion error"),
    }
    assert_eq!(sample.loci_names(), vec!["L".to_string()]);
}

#[test]
fn meta_last_write_wins() {
    let mut sample = Sample::new();
    sample.apply(&Observation::Meta("i".to_string(), "k".to_string(), "1".to_string()));
    sample.apply(&Observation::Meta("i".to_string(), "k".to_string(), "2".to_string()));
    assert_eq!(sample.individual("i").unwrap().meta("k"), Some("2".to_string()));
}

#[test]
fn repeated_alleles_are_counted() {
    let mut sample = Sample::new();
    sample.apply(&allele("i", "L", "v"));
    sample.apply(&allele("i", "L", "v"));
    assert_eq!(sample.individual("i").unwrap().count_of("L", "v"), 2);
    assert_eq!(sample.individual("i").unwrap().count_of("L", "w"), 0);
}

#[test]
fn loci_count_their_alleles() {
    let loci: Loci = vec![Locus::new("A"), Locus::new("B")];
    assert_eq!(loci.n_alleles(), 0);
    let mut sample = Sample::new();
    sample.allele("A", "1");
    sample.allele("A", "2");
    sample.allele("B", "1");
    sample.apply(&allele("i", "A", "1"));
    sample.flush().unwrap();
    assert_eq!(sample.matrix().n_cols(), 3);
}

#[test]
fn csv_builder_defaults() {
    let b = CsvBuilder::new();
    assert!(b.headers);
    assert_eq!(b.delimiter, b',');
    assert_eq!(b.separator, "/");
    assert_eq!(b.group_presence_identifier, "Y");
}

#[test]
fn locus_sums_add_up_each_range() {
    let mut sample = Sample::new();
    sample
        .observe(ok_all(vec![allele("i", "A", "x"), allele("i", "A", "x"), allele("i", "A", "y"), allele("i", "B", "z")]))
        .unwrap();
    sample.flush().unwrap();
    assert_eq!(sample.matrix().locus_sum(0, 0), 3);
    assert_eq!(sample.matrix().locus_sum(0, 1), 1);
}
