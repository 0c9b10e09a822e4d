use makevcf::header::build_header;
use noodles::vcf::header::record::value::Collection;
use noodles::vcf::header::FileFormat;

fn texts(items: &[&str]) -> Vec<String> {
    items.iter().map(|item| item.to_string()).collect()
}

fn keys_of<'a, I: Iterator<Item = &'a String>>(keys: I) -> Vec<String> {
    keys.cloned().collect()
}

#[test]
fn header_lists_what_was_given() {
    let header = build_header(
        "GRCh38",
        &texts(&["GT", "DP"]),
        &texts(&["S1", "S2"]),
        &texts(&["DP=10;AF=0.5", "AF=0.1;DB"]),
    )
    .unwrap();
    assert_eq!(header.assembly, "GRCh38");
    assert_eq!(header.formats, vec!["GT", "DP"]);
    assert_eq!(header.samples, vec!["S1", "S2"]);
    assert_eq!(header.infos, vec!["AF", "DB", "DP"]);
}

#[test]
fn codec_header_announces_version_4_2() {
    let header = build_header("hg19", &texts(&["GT"]), &texts(&["S1"]), &[]).unwrap();
    assert_eq!(header.codec.file_format(), FileFormat::new(4, 2));
}

#[test]
fn codec_header_holds_the_assembly() {
    let header = build_header("GRCh38", &texts(&["GT"]), &texts(&["S1"]), &[]).unwrap();
    assert_eq!(
        header.codec.get("assembly"),
        Some(&Collection::Unstructured(vec![String::from("GRCh38")]))
    );
    assert_eq!(header.codec.other_records().len(), 1);
}

#[test]
fn codec_header_declares_format_keys_in_the_order_given() {
    let header = build_header("hg38", &texts(&["GT", "DP", "AD", "GQ"]), &[], &[]).unwrap();
    assert_eq!(keys_of(header.codec.formats().keys()), vec!["GT", "DP", "AD", "GQ"]);
}

#[test]
fn codec_header_declares_info_keys_in_lexicographic_order() {
    let infos = texts(&["ZZ=1;MQ=60", "DP=10;AF=0.5", "AF=0.1"]);
    let header = build_header("hg38", &texts(&["GT"]), &texts(&["S1"]), &infos).unwrap();
    assert_eq!(keys_of(header.codec.infos().keys()), vec!["AF", "DP", "MQ", "ZZ"]);
    assert_eq!(keys_of(header.codec.infos().keys()), header.infos);
}

#[test]
fn codec_header_declares_samples_in_the_order_given() {
    let header = build_header("hg38", &texts(&["GT"]), &texts(&["S2", "S1", "S3"]), &[]).unwrap();
    assert_eq!(keys_of(header.codec.sample_names().iter()), vec!["S2", "S1", "S3"]);
}

#[test]
fn what_is_given_twice_is_declared_once() {
    let header =
        build_header("hg38", &texts(&["GT", "DP", "GT"]), &texts(&["S1", "S1", "S2"]), &[]).unwrap();
    assert_eq!(header.formats, vec!["GT", "DP", "GT"]);
    assert_eq!(header.samples, vec!["S1", "S1", "S2"]);
    assert_eq!(keys_of(header.codec.formats().keys()), vec!["GT", "DP"]);
    assert_eq!(keys_of(header.codec.sample_names().iter()), vec!["S1", "S2"]);
}

#[test]
fn header_without_declarations_is_built() {
    let header = build_header("b37", &[], &[], &[]).unwrap();
    assert!(header.codec.formats().is_empty());
    assert!(header.codec.infos().is_empty());
    assert!(header.codec.sample_names().is_empty());
    assert!(header.codec.filters().is_empty());
    assert!(header.codec.contigs().is_empty());
}

#[test]
fn order_of_annotations_leaves_the_header_unchanged() {
    let formats = texts(&["GT"]);
    let samples = texts(&["S1"]);
    let one = build_header("hg38", &formats, &samples, &texts(&["DP=1;AF=2", "MQ=3"])).unwrap();
    let two = build_header("hg38", &formats, &samples, &texts(&["MQ=3", "DP=1;AF=2"])).unwrap();
    assert_eq!(one.infos, two.infos);
    assert_eq!(one.codec, two.codec);
}

#[test]
fn every_key_of_an_annotation_is_declared() {
    let infos = texts(&["DP=10;AF=0.5;DB", "SOMATIC;DP=2"]);
    let header = build_header("hg38", &texts(&["GT"]), &texts(&["S1"]), &infos).unwrap();
    for key in ["DP", "AF", "DB", "SOMATIC"] {
        assert!(header.codec.infos().contains_key(key));
    }
    assert_eq!(header.codec.infos().len(), 4);
}

#[test]
fn any_assembly_text_is_held() {
    let header = build_header("CHM13 T2T", &[], &[], &[]).unwrap();
    assert_eq!(
        header.codec.get("assembly"),
        Some(&Collection::Unstructured(vec![String::from("CHM13 T2T")]))
    );
}
