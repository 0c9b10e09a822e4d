//! A whole fixture: the header and one record for each variant.

use vstd::prelude::*;
use crate::codec::codec_accepts;
use crate::header::{build_header, HeaderError, VcfHeader};
use crate::record::{build_record, is_framed, record_line, reproduces, Record, RecordError};
use crate::text::{same_text, views};
use crate::variant::{parse_variant, parsed, VariantError};

verus! {

/// A fixture, ready for the codec's writer.
#[derive(Debug)]
pub struct Fixture {
    pub header: VcfHeader,
    /// One record for each variant, in the order of the variants.
    pub records: Vec<Record>,
}

/// Why no fixture was assembled.
#[derive(Debug)]
pub enum FixtureError {
    /// The assembly is none of the supported ones; holds the assembly.
    UnsupportedAssembly(String),
    /// No header was built.
    Header(HeaderError),
    /// A variant's description was refused.
    Variant(VariantError),
    /// No record was built for a variant.
    Record(RecordError),
}

impl FixtureError {
    /// What the user is told of this error.
    pub open spec fn message_text(&self) -> Seq<char> {
        match self {
            FixtureError::UnsupportedAssembly(assembly) => {
                "Invalid assembly: "@ + assembly@
                    + ". Must be one of: hg38, hg19, b37, b38, GRCh37, GRCh38"@
            },
            FixtureError::Header(error) => error.message_text(),
            FixtureError::Variant(error) => error.message_text(),
            FixtureError::Record(error) => error.message_text(),
        }
    }

    /// What the user is told of this error.
    pub fn message(&self) -> (message: String)
        ensures
            message@ == self.message_text(),
    {
        match self {
            FixtureError::UnsupportedAssembly(assembly) => {
                let mut message = "Invalid assembly: ".to_owned();
                message.append(assembly.as_str());
                message.append(". Must be one of: hg38, hg19, b37, b38, GRCh37, GRCh38");
                message
            },
            FixtureError::Header(error) => error.message(),
            FixtureError::Variant(error) => error.message(),
            FixtureError::Record(error) => error.message(),
        }
    }
}

/// Whether `assembly` is one of the supported reference assemblies.
pub open spec fn is_supported(assembly: Seq<char>) -> bool {
    ||| assembly == "hg38"@
    ||| assembly == "hg19"@
    ||| assembly == "b37"@
    ||| assembly == "b38"@
    ||| assembly == "GRCh37"@
    ||| assembly == "GRCh38"@
}

/// Whether `assembly` is one of the supported reference assemblies.
pub fn is_supported_assembly(assembly: &str) -> (supported: bool)
    ensures
        supported == is_supported(assembly@),
{
    same_text(assembly, "hg38") || same_text(assembly, "hg19") || same_text(assembly, "b37")
        || same_text(assembly, "b38") || same_text(assembly, "GRCh37") || same_text(
        assembly,
        "GRCh38",
    )
}

/// The annotation of the variant at index `i`: annotations and variants are
/// paired by index, and a variant without a partner has none.
pub open spec fn info_at(infos: Seq<String>, i: int) -> Option<Seq<char>> {
    if 0 <= i < infos.len() {
        Some(infos[i]@)
    } else {
        None
    }
}

/// Whether the variant at index `i` is read, has one genotype tuple for each
/// sample, and has a data line that the codec accepts.
pub open spec fn is_assembled(
    variants: Seq<String>,
    infos: Seq<String>,
    header: VcfHeader,
    i: int,
) -> bool {
    let outcome = parsed(variants[i]@, info_at(infos, i));
    &&& outcome is Ok
    &&& outcome->Ok_0.genotypes.len() == header.samples.len()
    &&& codec_accepts(header.codec, record_line(outcome->Ok_0, views(header.formats@)))
}

/// Whether `record` gives back the variant at index `i`, where the data
/// line of that variant keeps its parts apart.
pub open spec fn gives_back(
    variants: Seq<String>,
    infos: Seq<String>,
    header: VcfHeader,
    i: int,
    record: Record,
) -> bool {
    let variant = parsed(variants[i]@, info_at(infos, i))->Ok_0;
    is_framed(variant, views(header.formats@)) ==> reproduces(record, variant)
}

/// Whether `error` is the error of the variant at index `i`: that of the
/// first rule which the variant breaks, in the order reading, genotype
/// count, codec.
pub open spec fn fails_with(
    variants: Seq<String>,
    infos: Seq<String>,
    header: VcfHeader,
    i: int,
    error: FixtureError,
) -> bool {
    match parsed(variants[i]@, info_at(infos, i)) {
        Err(refusal) => error matches FixtureError::Variant(cause) && cause@ == refusal,
        Ok(variant) => if variant.genotypes.len() != header.samples.len() {
            error matches FixtureError::Record(
                RecordError::SampleCountMismatch { genotypes, samples },
            ) && genotypes == variant.genotypes.len() && samples == header.samples.len()
        } else {
            &&& !codec_accepts(header.codec, record_line(variant, views(header.formats@)))
            &&& error matches FixtureError::Record(RecordError::Codec { index, .. }) && index == i
        },
    }
}

/// Whether `error` is the error of the first variant that is refused.
pub open spec fn first_refusal(
    variants: Seq<String>,
    infos: Seq<String>,
    header: VcfHeader,
    error: FixtureError,
) -> bool {
    exists|i: int|
        {
            &&& 0 <= i < variants.len()
            &&& forall|j: int| 0 <= j < i ==> is_assembled(variants, infos, header, j)
            &&& #[trigger] fails_with(variants, infos, header, i, error)
        }
}

/// Builds one record for each variant, in the order of the variants. The
/// first variant that is refused ends the work, and its error is returned.
pub fn assemble_records(variants: &[String], infos: &[String], header: &VcfHeader) -> (r: Result<
    Vec<Record>,
    FixtureError,
>)
    ensures
        match r {
            Ok(records) => {
                &&& records.len() == variants.len()
                &&& forall|i: int|
                    0 <= i < variants.len() ==> is_assembled(variants@, infos@, *header, i)
                &&& forall|i: int|
                    0 <= i < variants.len() ==> gives_back(
                        variants@,
                        infos@,
                        *header,
                        i,
                        #[trigger] records[i],
                    )
            },
            Err(error) => first_refusal(variants@, infos@, *header, error),
        },
{
    let mut records: Vec<Record> = Vec::new();
    let mut i: usize = 0;
    while i < variants.len()
        invariant
            i <= variants.len(),
            records.len() == i,
            forall|j: int| 0 <= j < i ==> is_assembled(variants@, infos@, *header, j),
            forall|j: int|
                0 <= j < i ==> gives_back(variants@, infos@, *header, j, #[trigger] records[j]),
        decreases variants.len() - i,
    {
        let info: Option<&String> = if i < infos.len() {
            Some(&infos[i])
        } else {
            None
        };
        let variant = match parse_variant(variants[i].as_str(), &info) {
            Ok(variant) => variant,
            Err(cause) => {
                let error = FixtureError::Variant(cause);
                assert(fails_with(variants@, infos@, *header, i as int, error));
                return Err(error);
            },
        };
        let record = match build_record(&variant, i, header) {
            Ok(record) => record,
            Err(cause) => {
                let error = FixtureError::Record(cause);
                assert(fails_with(variants@, infos@, *header, i as int, error));
                return Err(error);
            },
        };
        assert(is_assembled(variants@, infos@, *header, i as int));
        assert(gives_back(variants@, infos@, *header, i as int, record));
        records.push(record);
        i += 1;
    }
    Ok(records)
}

/// Assembles a fixture: checks the assembly, builds the header, then one
/// record for each variant. The annotation at index `i` of `infos` belongs
/// to the variant at index `i`.
pub fn assemble(
    assembly: &str,
    format_fields: &[String],
    samples: &[String],
    infos: &[String],
    variants: &[String],
) -> (r: Result<Fixture, FixtureError>)
    ensures
        !is_supported(assembly@) ==> (r matches Err(FixtureError::UnsupportedAssembly(named))
            && named@ == assembly@),
        is_supported(assembly@) ==> match r {
            Ok(fixture) => {
                &&& fixture.header.describes(assembly@, format_fields@, samples@, infos@)
                &&& fixture.records.len() == variants.len()
                &&& forall|i: int|
                    0 <= i < variants.len() ==> is_assembled(
                        variants@,
                        infos@,
                        fixture.header,
                        i,
                    )
                &&& forall|i: int|
                    0 <= i < variants.len() ==> gives_back(
                        variants@,
                        infos@,
                        fixture.header,
                        i,
                        #[trigger] fixture.records[i],
                    )
            },
            Err(error) => exists|header: VcfHeader|
                {
                    &&& #[trigger] header.describes(assembly@, format_fields@, samples@, infos@)
                    &&& first_refusal(variants@, infos@, header, error)
                },
        },
{
    if !is_supported_assembly(assembly) {
        return Err(FixtureError::UnsupportedAssembly(assembly.to_owned()));
    }
    let header = match build_header(assembly, format_fields, samples, infos) {
        Ok(header) => header,
        Err(cause) => {
            return Err(FixtureError::Header(cause));
        },
    };
    let records = match assemble_records(variants, infos, &header) {
        Ok(records) => records,
        Err(error) => {
            assert(header.describes(assembly@, format_fields@, samples@, infos@));
            return Err(error);
        },
    };
    Ok(Fixture { header, records })
}

} // verus!
