use makevcf::fixture::{assemble, assemble_records, is_supported_assembly, FixtureError};
use makevcf::header::build_header;
use makevcf::record::RecordError;
use makevcf::variant::VariantError;
use noodles::vcf::variant::io::Write;

fn texts(items: &[&str]) -> Vec<String> {
    items.iter().map(|item| item.to_string()).collect()
}

#[test]
fn supported_assemblies() {
    for assembly in ["hg38", "hg19", "b37", "b38", "GRCh37", "GRCh38"] {
        assert!(is_supported_assembly(assembly));
    }
    for assembly in ["", "hg18", "HG38", "grch38", "GRCh38 ", "CHM13-T2T", "hg3", "hg388"] {
        assert!(!is_supported_assembly(assembly));
    }
}

#[test]
fn end_to_end_scenario() {
    let fixture = assemble(
        "GRCh38",
        &texts(&["GT", "DP"]),
        &texts(&["S1", "S2"]),
        &[],
        &texts(&["2-500-C-G|0/1:30|1/1:45"]),
    )
    .unwrap();
    let declared: Vec<&String> = fixture.header.codec.formats().keys().collect();
    assert_eq!(declared, vec!["GT", "DP"]);
    let samples: Vec<&String> = fixture.header.codec.sample_names().iter().collect();
    assert_eq!(samples, vec!["S1", "S2"]);
    assert_eq!(fixture.records.len(), 1);
    let mut writer = noodles::vcf::io::Writer::new(Vec::new());
    writer.write_variant_record(&fixture.header.codec, &fixture.records[0].decoded).unwrap();
    assert_eq!(
        String::from_utf8(writer.into_inner()).unwrap(),
        "2\t500\t.\tC\tG\t.\t.\t.\tGT:DP\t0/1:30\t1/1:45\n"
    );
}

#[test]
fn whole_file_is_written_from_a_fixture() {
    let fixture = assemble(
        "hg38",
        &texts(&["GT"]),
        &texts(&["S1"]),
        &texts(&["DP=10"]),
        &texts(&["1-100-A-T|0/1", "1-200-G-C,CA|1/1"]),
    )
    .unwrap();
    let mut writer = noodles::vcf::io::Writer::new(Vec::new());
    writer.write_header(&fixture.header.codec).unwrap();
    for record in &fixture.records {
        writer.write_variant_record(&fixture.header.codec, &record.decoded).unwrap();
    }
    assert_eq!(
        String::from_utf8(writer.into_inner()).unwrap(),
        "##fileformat=VCFv4.2\n\
         ##INFO=<ID=DP,Number=1,Type=Integer,Description=\"Combined depth across samples\">\n\
         ##FORMAT=<ID=GT,Number=1,Type=String,Description=\"Genotype\">\n\
         ##assembly=hg38\n\
         #CHROM\tPOS\tID\tREF\tALT\tQUAL\tFILTER\tINFO\tFORMAT\tS1\n\
         1\t100\t.\tA\tT\t.\t.\tDP=10\tGT\t0/1\n\
         1\t200\t.\tG\tC,CA\t.\t.\t.\tGT\t1/1\n"
    );
}

#[test]
fn unsupported_assembly_is_refused() {
    let outcome = assemble("CHM13-T2T", &texts(&["GT"]), &texts(&["S1"]), &[], &[]);
    match outcome {
        Err(FixtureError::UnsupportedAssembly(assembly)) => assert_eq!(assembly, "CHM13-T2T"),
        other => panic!("unexpected outcome: {:?}", other.map(|_| ())),
    }
}

#[test]
fn unsupported_assembly_message_lists_the_supported_ones() {
    let error = FixtureError::UnsupportedAssembly(String::from("mm10"));
    assert_eq!(
        error.message(),
        "Invalid assembly: mm10. Must be one of: hg38, hg19, b37, b38, GRCh37, GRCh38"
    );
}

#[test]
fn annotations_are_paired_with_variants_by_index() {
    let header =
        build_header("hg38", &texts(&["GT"]), &texts(&["S1"]), &texts(&["DP=1", "DB"])).unwrap();
    let variants = texts(&["1-1-A-T|0/1", "1-2-A-T|0/1", "1-3-A-T|0/1"]);
    let records = assemble_records(&variants, &texts(&["DP=1", "DB"]), &header).unwrap();
    assert_eq!(records.len(), 3);
    let mut writer = noodles::vcf::io::Writer::new(Vec::new());
    for record in &records {
        writer.write_variant_record(&header.codec, &record.decoded).unwrap();
    }
    assert_eq!(
        String::from_utf8(writer.into_inner()).unwrap(),
        "1\t1\t.\tA\tT\t.\t.\tDP=1\tGT\t0/1\n1\t2\t.\tA\tT\t.\t.\tDB\tGT\t0/1\n1\t3\t.\tA\tT\t.\t.\t.\tGT\t0/1\n"
    );
}

#[test]
fn records_keep_the_order_of_the_variants() {
    let header = build_header("hg38", &texts(&["GT"]), &texts(&["S1"]), &[]).unwrap();
    let variants = texts(&["9-900-A-T|0/1", "1-5-G-C|1/1", "X-70-T-A|0/0"]);
    let records = assemble_records(&variants, &[], &header).unwrap();
    let chromosomes: Vec<&str> = records.iter().map(|r| r.chromosome.as_str()).collect();
    assert_eq!(chromosomes, vec!["9", "1", "X"]);
    let positions: Vec<Option<usize>> = records.iter().map(|r| r.position).collect();
    assert_eq!(positions, vec![Some(900), Some(5), Some(70)]);
}

#[test]
fn no_variants_give_no_records() {
    let header = build_header("hg38", &texts(&["GT"]), &texts(&["S1"]), &[]).unwrap();
    assert_eq!(assemble_records(&[], &[], &header).unwrap().len(), 0);
}

#[test]
fn first_refused_variant_ends_the_work() {
    let header = build_header("hg38", &texts(&["GT"]), &texts(&["S1"]), &[]).unwrap();
    let variants = texts(&["1-100-A-T|0/1", "1-abc-A-T|0/1", "1-100-A-T"]);
    match assemble_records(&variants, &[], &header) {
        Err(FixtureError::Variant(VariantError::InvalidPosition(field))) => {
            assert_eq!(field, "abc")
        }
        other => panic!("unexpected outcome: {:?}", other.map(|_| ())),
    }
}

#[test]
fn sample_count_mismatch_is_reported() {
    let outcome = assemble(
        "hg38",
        &texts(&["GT"]),
        &texts(&["S1", "S2"]),
        &[],
        &texts(&["1-100-A-T|0/1|1/1", "1-200-A-T|0/1"]),
    );
    match outcome {
        Err(FixtureError::Record(RecordError::SampleCountMismatch { genotypes, samples })) => {
            assert_eq!(genotypes, 1);
            assert_eq!(samples, 2);
        }
        other => panic!("unexpected outcome: {:?}", other.map(|_| ())),
    }
}

#[test]
fn codec_refusal_carries_the_index_of_the_variant() {
    let outcome = assemble(
        "hg38",
        &texts(&["GT"]),
        &texts(&["S1"]),
        &[],
        &texts(&["1-100-A-T|0/1", "1-200-A-T|0/1", "1-300--T|0/1"]),
    );
    match outcome {
        Err(FixtureError::Record(RecordError::Codec { index, .. })) => assert_eq!(index, 2),
        other => panic!("unexpected outcome: {:?}", other.map(|_| ())),
    }
}

#[test]
fn annotation_with_an_undeclared_shape_is_the_codecs_to_judge() {
    let outcome = assemble(
        "hg38",
        &texts(&["GT"]),
        &texts(&["S1"]),
        &texts(&["DP=ten"]),
        &texts(&["1-100-A-T|0/1"]),
    );
    assert!(matches!(outcome, Err(FixtureError::Record(RecordError::Codec { index: 0, .. }))));
}

#[test]
fn fixture_error_messages_are_those_of_their_causes() {
    let error = FixtureError::Variant(VariantError::MissingGenotypes(String::from("1-2-A-T")));
    assert_eq!(error.message(), "Invalid variant format. Genotype section required: 1-2-A-T");
    let error = FixtureError::Record(RecordError::SampleCountMismatch { genotypes: 0, samples: 1 });
    assert_eq!(error.message(), "Number of genotypes (0) does not match number of samples (1)");
}
