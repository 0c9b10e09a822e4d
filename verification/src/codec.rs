//! The VCF codec, as far as this crate calls it.
//!
//! Nothing in this file is proved. Each item states what the codec's source
//! shows of one of its functions; the rest of the crate is verified against
//! these statements.

use vstd::prelude::*;
use crate::decimal::{is_number, number_value};
use crate::record::Record;
use crate::text::{split, views};

verus! {

/// The codec's header, `noodles::vcf::Header`.
#[verifier::external_type_specification]
#[verifier::external_body]
pub struct ExHeader(noodles::vcf::Header);

/// The codec's header builder, `noodles::vcf::header::Builder`.
#[verifier::external_type_specification]
#[verifier::external_body]
pub struct ExBuilder(noodles::vcf::header::Builder);

/// The key of a header record that is none of the standard ones,
/// `noodles::vcf::header::record::key::Other`.
#[verifier::external_type_specification]
#[verifier::external_body]
pub struct ExOtherKey(noodles::vcf::header::record::key::Other);

/// Why a text is no such key,
/// `noodles::vcf::header::record::key::other::ParseError`.
#[verifier::external_type_specification]
#[verifier::external_body]
pub struct ExOtherKeyError(noodles::vcf::header::record::key::other::ParseError);

/// Why a header record was not taken,
/// `noodles::vcf::header::record::value::collection::AddError`.
#[verifier::external_type_specification]
#[verifier::external_body]
pub struct ExAddError(noodles::vcf::header::record::value::collection::AddError);

/// The codec's record, `noodles::vcf::variant::RecordBuf`.
#[verifier::external_type_specification]
#[verifier::external_body]
pub struct ExRecordBuf(noodles::vcf::variant::RecordBuf);

/// The error of std's I/O, in which the codec reports a line that it cannot
/// decode.
#[verifier::external_type_specification]
#[verifier::external_body]
pub struct ExIoError(std::io::Error);

/// What a header or a header builder declares.
pub ghost struct Declarations {
    /// The major and the minor number of the file format.
    pub version: (u32, u32),
    /// The records under other than the standard keys, by key: the texts of
    /// a key that holds plain texts, in the order in which they came, or
    /// `None` for a key that holds structured records.
    pub others: Map<Seq<char>, Option<Seq<Seq<char>>>>,
    /// The INFO keys, in the order in which they were first declared.
    pub infos: Seq<Seq<char>>,
    /// The FORMAT keys, in the order in which they were first declared.
    pub formats: Seq<Seq<char>>,
    /// The sample names, in the order in which they were first declared.
    pub samples: Seq<Seq<char>>,
}

/// What the builder `builder` declares so far.
pub uninterp spec fn builder_declarations(builder: noodles::vcf::header::Builder) -> Declarations;

/// What the header `header` declares.
pub uninterp spec fn header_declarations(header: noodles::vcf::Header) -> Declarations;

/// The text of the key `key`.
pub uninterp spec fn other_key_text(key: noodles::vcf::header::record::key::Other) -> Seq<char>;

/// `keys` with `key` behind it, unless `keys` holds `key` already.
pub open spec fn declared(keys: Seq<Seq<char>>, key: Seq<char>) -> Seq<Seq<char>> {
    if keys.contains(key) {
        keys
    } else {
        keys.push(key)
    }
}

impl Declarations {
    /// Whether nothing is declared but the file format's version.
    pub open spec fn is_blank(self) -> bool {
        &&& self.others == Map::<Seq<char>, Option<Seq<Seq<char>>>>::empty()
        &&& self.infos == Seq::<Seq<char>>::empty()
        &&& self.formats == Seq::<Seq<char>>::empty()
        &&& self.samples == Seq::<Seq<char>>::empty()
    }

    /// Whether `key` holds structured records.
    pub open spec fn holds_structured(self, key: Seq<char>) -> bool {
        self.others.contains_key(key) && self.others[key] is None
    }

    /// The plain texts that `key` holds.
    pub open spec fn texts_under(self, key: Seq<char>) -> Seq<Seq<char>> {
        if self.others.contains_key(key) && self.others[key] is Some {
            self.others[key]->0
        } else {
            Seq::empty()
        }
    }

    /// These declarations with the file format's version replaced.
    pub open spec fn with_version(self, major: u32, minor: u32) -> Declarations {
        Declarations { version: (major, minor), ..self }
    }

    /// These declarations with `text` behind the texts that `key` holds.
    pub open spec fn with_text(self, key: Seq<char>, text: Seq<char>) -> Declarations {
        Declarations {
            others: self.others.insert(key, Some(self.texts_under(key).push(text))),
            ..self
        }
    }

    /// These declarations with the INFO key `key` declared.
    pub open spec fn with_info(self, key: Seq<char>) -> Declarations {
        Declarations { infos: declared(self.infos, key), ..self }
    }

    /// These declarations with the FORMAT key `key` declared.
    pub open spec fn with_format(self, key: Seq<char>) -> Declarations {
        Declarations { formats: declared(self.formats, key), ..self }
    }

    /// These declarations with the sample `name` declared.
    pub open spec fn with_sample(self, name: Seq<char>) -> Declarations {
        Declarations { samples: declared(self.samples, name), ..self }
    }
}

/// Whether `key` is one of the six keys that the format reserves.
pub open spec fn is_standard_key(key: Seq<char>) -> bool {
    ||| key == "fileformat"@
    ||| key == "INFO"@
    ||| key == "FILTER"@
    ||| key == "FORMAT"@
    ||| key == "ALT"@
    ||| key == "contig"@
}

/// `Header::builder`: a builder that declares no INFO key, no FORMAT key, no
/// sample and no record under another key.
#[verifier::external_body]
pub(crate) fn new_builder() -> (builder: noodles::vcf::header::Builder)
    ensures
        builder_declarations(builder).is_blank(),
{
    noodles::vcf::Header::builder()
}

/// `Builder::set_file_format` with `FileFormat::new(major, minor)`: replaces
/// the file format's version and leaves the rest as it was.
#[verifier::external_body]
pub(crate) fn set_version(builder: noodles::vcf::header::Builder, major: u32, minor: u32) -> (out:
    noodles::vcf::header::Builder)
    ensures
        builder_declarations(out) == builder_declarations(builder).with_version(major, minor),
{
    builder.set_file_format(noodles::vcf::header::FileFormat::new(major, minor))
}

/// `str::parse` to a `key::Other`: succeeds on every text but the six
/// standard keys, and the key then holds that text.
#[verifier::external_body]
pub(crate) fn parse_other_key(text: &str) -> (r: Result<
    noodles::vcf::header::record::key::Other,
    noodles::vcf::header::record::key::other::ParseError,
>)
    ensures
        r is Ok <==> !is_standard_key(text@),
        r is Ok ==> other_key_text(r->Ok_0) == text@,
{
    text.parse()
}

/// `Builder::insert` of a plain text: fails where the key holds structured
/// records; otherwise puts the text behind those that the key holds already
/// and leaves the rest as it was.
#[verifier::external_body]
pub(crate) fn insert_text(
    builder: noodles::vcf::header::Builder,
    key: noodles::vcf::header::record::key::Other,
    text: &str,
) -> (r: Result<
    noodles::vcf::header::Builder,
    noodles::vcf::header::record::value::collection::AddError,
>)
    ensures
        r is Ok <==> !builder_declarations(builder).holds_structured(other_key_text(key)),
        r is Ok ==> builder_declarations(r->Ok_0) == builder_declarations(builder).with_text(
            other_key_text(key),
            text@,
        ),
{
    builder.insert(key, noodles::vcf::header::record::Value::from(text))
}

/// `Builder::add_format` with the codec's own definition of `key`: declares
/// the FORMAT key `key` behind the others, unless it is declared already,
/// and leaves the rest as it was.
#[verifier::external_body]
pub(crate) fn add_format(builder: noodles::vcf::header::Builder, key: &str) -> (out:
    noodles::vcf::header::Builder)
    ensures
        builder_declarations(out) == builder_declarations(builder).with_format(key@),
{
    builder.add_format(key, noodles::vcf::header::record::value::Map::from(key))
}

/// `Builder::add_info` with the codec's own definition of `key`: declares
/// the INFO key `key` behind the others, unless it is declared already, and
/// leaves the rest as it was.
#[verifier::external_body]
pub(crate) fn add_info(builder: noodles::vcf::header::Builder, key: &str) -> (out:
    noodles::vcf::header::Builder)
    ensures
        builder_declarations(out) == builder_declarations(builder).with_info(key@),
{
    builder.add_info(key, noodles::vcf::header::record::value::Map::from(key))
}

/// `Builder::add_sample_name`: declares the sample `name` behind the others,
/// unless it is declared already, and leaves the rest as it was.
#[verifier::external_body]
pub(crate) fn add_sample_name(builder: noodles::vcf::header::Builder, name: &str) -> (out:
    noodles::vcf::header::Builder)
    ensures
        builder_declarations(out) == builder_declarations(builder).with_sample(name@),
{
    builder.add_sample_name(name)
}

/// `Builder::build`: the header declares what the builder declared.
#[verifier::external_body]
pub(crate) fn build(builder: noodles::vcf::header::Builder) -> (header: noodles::vcf::Header)
    ensures
        header_declarations(header) == builder_declarations(builder),
{
    builder.build()
}

/// The field of the data line `line` at index `i`, counted from 0: what
/// stands between two tabs. Behind the last field every field is empty.
pub open spec fn field(line: Seq<char>, i: int) -> Seq<char> {
    let fields = split(line, '\t');
    if 0 <= i < fields.len() {
        fields[i]
    } else {
        Seq::empty()
    }
}

/// Whether the position `position` is what the codec reads from the field
/// `text`: `0` is no position, and every other number text is its value.
pub open spec fn position_read(text: Seq<char>, position: Option<usize>) -> bool {
    match position {
        None => text == seq!['0'],
        Some(value) => {
            &&& text != seq!['0']
            &&& is_number(text)
            &&& number_value(text) == value
            &&& value >= 1
        },
    }
}

/// Whether the alleles `alleles` are what the codec reads from the field
/// `text`: `.` holds no allele, and every other text its pieces between
/// commas.
pub open spec fn alleles_read(text: Seq<char>, alleles: Seq<Seq<char>>) -> bool {
    if text == seq!['.'] {
        alleles.len() == 0
    } else {
        text.len() > 0 && alleles == split(text, ',')
    }
}

/// Whether `record` holds what the codec reads from the first five fields
/// of the data line `line`.
pub open spec fn decodes_to(line: Seq<char>, record: Record) -> bool {
    &&& record.chromosome@ == field(line, 0)
    &&& position_read(field(line, 1), record.position)
    &&& record.reference@ == field(line, 3)
    &&& record.reference@.len() > 0
    &&& alleles_read(field(line, 4), views(record.alternate@))
}

/// Whether the codec accepts the data line `line` under the header
/// `header`.
pub uninterp spec fn codec_accepts(header: noodles::vcf::Header, line: Seq<char>) -> bool;

/// `Reader::read_record_buf` on a reader over the bytes of `line`, with
/// `header` as the schema. Whether the line is accepted is the codec's
/// decision, which rests on the header and the line alone. Where it accepts
/// a line that is not empty and holds no line feed, the record's chromosome,
/// position, reference bases and alternate bases are what `decodes_to` says;
/// they are read out of the record with `reference_sequence_name`,
/// `variant_start`, `reference_bases` and `alternate_bases`.
#[verifier::external_body]
pub(crate) fn decode_line(header: &noodles::vcf::Header, line: &str) -> (r: Result<
    Record,
    std::io::Error,
>)
    ensures
        r is Ok <==> codec_accepts(*header, line@),
        r is Ok && line@.len() > 0 && !line@.contains('\n') ==> decodes_to(line@, r->Ok_0),
{
    let mut reader = noodles::vcf::io::Reader::new(line.as_bytes());
    let mut decoded = noodles::vcf::variant::RecordBuf::default();
    reader.read_record_buf(header, &mut decoded)?;
    Ok(
        Record {
            chromosome: decoded.reference_sequence_name().to_owned(),
            position: decoded.variant_start().map(usize::from),
            reference: decoded.reference_bases().to_owned(),
            alternate: decoded.alternate_bases().as_ref().to_vec(),
            decoded,
        },
    )
}

} // verus!
