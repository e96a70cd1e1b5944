use genomics::{CsvBuilder, GenomicsError, Observation, RecordLayout, Sample};

/// Reads delimited text with the csv crate and turns each record into observations.
fn observations_of(builder: &CsvBuilder, text: &str) -> Vec<Result<Observation, GenomicsError>> {
    let mut rdr = csv::ReaderBuilder::new()
        .has_headers(builder.headers)
        .delimiter(builder.delimiter)
        .from_reader(text.as_bytes());
    let header: Option<Vec<String>> = if builder.headers {
        Some(rdr.headers().unwrap().iter().map(|s| s.to_string()).collect())
    } else {
        None
    };
    let layout: RecordLayout = builder.layout(header.as_ref());
    let mut out = Vec::new();
    for (idx, rec) in rdr.records().enumerate() {
        let row: Vec<String> = rec.unwrap().iter().map(|s| s.to_string()).collect();
        out.extend(layout.observations(idx, &row).into_iter().map(Ok));
    }
    out
}

#[test]
fn test_csv_with_header_has_correct_loci() {
    let mut sample = Sample::new();
    let _ = sample.observe(observations_of(&CsvBuilder::new(), "test\n0/0"));
    assert_eq!(sample.loci_names(), vec!["test"]);
}

#[test]
fn test_csv_has_correct_variations() {
    let mut sample = Sample::new();
    let _ = sample.observe(observations_of(&CsvBuilder::new(), "test\n0/1/2/3/4\n5/6/7/8/9"));
    assert_eq!(
        sample.variations("test").unwrap(),
        (0..=9).map(|x| x.to_string()).collect::<Vec<String>>()
    );
}

#[test]
fn record_without_name_column_is_named_by_position() {
    let obs = observations_of(&CsvBuilder::new(), "L\na/b\nc");
    let names: Vec<String> = obs
        .into_iter()
        .map(|o| match o.unwrap() {
            Observation::Allele(i, l, v) => format!("{}:{}:{}", i, l, v),
            _ => panic!("expected alleles"),
        })
        .collect();
    assert_eq!(names, vec!["0:L:a", "0:L:b", "1:L:c"]);
}

#[test]
fn columns_take_their_roles_from_the_header() {
    let mut b = CsvBuilder::new();
    b.name_field("id").group_field("pop").meta_fields(vec!["site".to_string()]);
    b.group_fields(vec!["vaccinated".to_string()], "yes").separator("|");
    let obs = observations_of(&b, "id,pop,site,vaccinated,L1\nx7,north,farmA,yes,a|b\nx8,south,farmB,no,c");
    let mut sample = Sample::new();
    sample.observe(obs).unwrap();
    let x7 = sample.individual("x7").unwrap();
    assert!(x7.in_group("north"));
    assert!(x7.in_group("vaccinated"));
    assert_eq!(x7.meta("site"), Some("farmA".to_string()));
    assert_eq!(x7.count_of("L1", "a"), 1);
    assert_eq!(x7.count_of("L1", "b"), 1);
    let x8 = sample.individual("x8").unwrap();
    assert!(!x8.in_group("vaccinated"));
    assert_eq!(x8.n_groups(), 1);
    assert_eq!(sample.loci_names(), vec!["L1"]);
}

#[test]
fn without_header_columns_are_loci_by_position() {
    let mut b = CsvBuilder::new();
    b.headers(false);
    let obs = observations_of(&b, "a,b\nc,d");
    let mut sample = Sample::new();
    sample.observe(obs).unwrap();
    assert_eq!(sample.loci_names(), vec!["0", "1"]);
    assert_eq!(sample.variations("0").unwrap(), vec!["a", "c"]);
}
