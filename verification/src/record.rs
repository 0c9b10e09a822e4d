//! The data line of a variant, and the record that the codec decodes from
//! it.

use vstd::prelude::*;
use crate::codec::{codec_accepts, decode_line, decodes_to, field};
use crate::decimal::{
    decimal_text, digits_of, digits_value, is_digit, lemma_decimal_text_value, write_number,
};
use crate::header::VcfHeader;
use crate::text::{
    join, join_text, lemma_join_clean, lemma_join_concat, lemma_piece_of_clean, lemma_split_clean,
    lemma_split_concat, lemma_split_join, lemma_split_nonempty, push_char, split, views,
};
use crate::variant::{
    lemma_parsed_shape, location_of, missing_info, parsed, sections_of, Variant, VariantView,
};

verus! {

/// A decoded record.
#[derive(Debug)]
pub struct Record {
    pub chromosome: String,
    /// The position, counted from 1; `None` where the line gives 0.
    pub position: Option<usize>,
    pub reference: String,
    /// The alternate alleles, in the order of the line.
    pub alternate: Vec<String>,
    /// The record as the codec holds it, for the codec's writer.
    pub decoded: noodles::vcf::variant::RecordBuf,
}

/// Why no record was built.
#[derive(Debug)]
pub enum RecordError {
    /// The variant has not one genotype tuple for each sample.
    SampleCountMismatch { genotypes: usize, samples: usize },
    /// The codec refused the data line of the variant at `index`, counted
    /// from 0; `reason` is what the codec said.
    Codec { index: usize, reason: String },
}

impl RecordError {
    /// What the user is told of this error.
    pub open spec fn message_text(&self) -> Seq<char> {
        match self {
            RecordError::SampleCountMismatch { genotypes, samples } => {
                "Number of genotypes ("@ + decimal_text(*genotypes as nat)
                    + ") does not match number of samples ("@ + decimal_text(*samples as nat)
                    + ")"@
            },
            RecordError::Codec { index, reason } => {
                "Invalid record for variant "@ + decimal_text(*index as nat) + ": "@ + reason@
            },
        }
    }

    /// What the user is told of this error: both counts of a mismatch, or
    /// the index of the variant whose data line the codec refused and the
    /// codec's reason.
    pub fn message(&self) -> (message: String)
        ensures
            message@ == self.message_text(),
    {
        match self {
            RecordError::SampleCountMismatch { genotypes, samples } => {
                let mut message = "Number of genotypes (".to_owned();
                write_number(*genotypes, &mut message);
                message.append(") does not match number of samples (");
                write_number(*samples, &mut message);
                message.append(")");
                message
            },
            RecordError::Codec { index, reason } => {
                let mut message = "Invalid record for variant ".to_owned();
                write_number(*index, &mut message);
                message.append(": ");
                message.append(reason.as_str());
                message
            },
        }
    }
}

/// The text that stands for a missing value.
pub open spec fn missing() -> Seq<char> {
    seq!['.']
}

/// The nine fields of a data line that stand before the genotype tuples:
/// chromosome, position, identifier, reference allele, alternate alleles,
/// quality, filter, annotation and FORMAT keys. Identifier, quality and
/// filter are missing.
pub open spec fn fixed_fields(variant: VariantView, formats: Seq<Seq<char>>) -> Seq<Seq<char>> {
    seq![
        variant.chromosome,
        decimal_text(variant.position),
        missing(),
        variant.reference,
        join(variant.alternate, ','),
        missing(),
        missing(),
        variant.info,
        join(formats, ':'),
    ]
}

/// The data line of a variant: the nine fixed fields and the genotype
/// tuples, with a tab between each two.
pub open spec fn record_line(variant: VariantView, formats: Seq<Seq<char>>) -> Seq<char> {
    join(fixed_fields(variant, formats), '\t').push('\t') + join(variant.genotypes, '\t')
}

/// Composes the data line of `variant` for the FORMAT keys `formats`.
pub fn compose_line(variant: &Variant, formats: &[String]) -> (line: String)
    ensures
        line@ == record_line(variant@, views(formats@)),
{
    let ghost fields = fixed_fields(variant@, views(formats@));
    let mut line = String::new();
    line.append(variant.chromosome.as_str());
    assert(line@ == join(fields.take(1), '\t'));
    push_char(&mut line, '\t');
    write_number(variant.position, &mut line);
    assert(line@ == join(fields.take(2), '\t')) by {
        assert(fields.take(2).drop_last() == fields.take(1));
    }
    push_char(&mut line, '\t');
    push_char(&mut line, '.');
    assert(line@ == join(fields.take(3), '\t')) by {
        assert(fields.take(3).drop_last() == fields.take(2));
    }
    push_char(&mut line, '\t');
    line.append(variant.reference.as_str());
    assert(line@ == join(fields.take(4), '\t')) by {
        assert(fields.take(4).drop_last() == fields.take(3));
    }
    push_char(&mut line, '\t');
    let alleles = join_text(variant.alternate.as_slice(), ',');
    line.append(alleles.as_str());
    assert(line@ == join(fields.take(5), '\t')) by {
        assert(fields.take(5).drop_last() == fields.take(4));
    }
    push_char(&mut line, '\t');
    push_char(&mut line, '.');
    assert(line@ == join(fields.take(6), '\t')) by {
        assert(fields.take(6).drop_last() == fields.take(5));
    }
    push_char(&mut line, '\t');
    push_char(&mut line, '.');
    assert(line@ == join(fields.take(7), '\t')) by {
        assert(fields.take(7).drop_last() == fields.take(6));
    }
    push_char(&mut line, '\t');
    line.append(variant.info.as_str());
    assert(line@ == join(fields.take(8), '\t')) by {
        assert(fields.take(8).drop_last() == fields.take(7));
    }
    push_char(&mut line, '\t');
    let keys = join_text(formats, ':');
    line.append(keys.as_str());
    assert(line@ == join(fields, '\t')) by {
        assert(fields.drop_last() == fields.take(8));
    }
    push_char(&mut line, '\t');
    let tuples = join_text(variant.genotypes.as_slice(), '\t');
    line.append(tuples.as_str());
    line
}

/// Whether `text` holds neither a tab nor a line feed.
pub open spec fn is_plain(text: Seq<char>) -> bool {
    !text.contains('\t') && !text.contains('\n')
}

/// Whether the data line of `variant` keeps its parts apart: it is a single
/// line, on which chromosome, reference allele and alternate alleles fill
/// one field each, and the commas of that last field are those between the
/// alleles.
pub open spec fn is_framed(variant: VariantView, formats: Seq<Seq<char>>) -> bool {
    &&& is_plain(variant.chromosome)
    &&& is_plain(variant.reference)
    &&& variant.alternate.len() >= 1
    &&& forall|i: int|
        0 <= i < variant.alternate.len() ==> is_plain(#[trigger] variant.alternate[i])
            && !variant.alternate[i].contains(',')
    &&& !variant.info.contains('\n')
    &&& forall|i: int| 0 <= i < formats.len() ==> !(#[trigger] formats[i]).contains('\n')
    &&& forall|i: int|
        0 <= i < variant.genotypes.len() ==> !(#[trigger] variant.genotypes[i]).contains('\n')
}

/// Whether `record` gives back the chromosome, the position, the reference
/// allele and the alternate alleles of `variant`. The format counts
/// positions from 1, so position 0 comes back as no position; and a single
/// alternate allele `.` is the format's way of writing none.
pub open spec fn reproduces(record: Record, variant: VariantView) -> bool {
    &&& record.chromosome@ == variant.chromosome
    &&& record.position == if variant.position == 0 {
        None
    } else {
        Some(variant.position as usize)
    }
    &&& record.reference@ == variant.reference
    &&& views(record.alternate@) == if variant.alternate == seq![missing()] {
        Seq::<Seq<char>>::empty()
    } else {
        variant.alternate
    }
}

/// The data line of a framed variant starts with these five fields:
/// chromosome, position in decimal notation, `.`, reference allele, and the
/// alternate alleles with commas between them.
pub proof fn lemma_line_fields(variant: VariantView, formats: Seq<Seq<char>>)
    requires
        is_framed(variant, formats),
    ensures
        field(record_line(variant, formats), 0) == variant.chromosome,
        field(record_line(variant, formats), 1) == decimal_text(variant.position),
        field(record_line(variant, formats), 2) == missing(),
        field(record_line(variant, formats), 3) == variant.reference,
        field(record_line(variant, formats), 4) == join(variant.alternate, ','),
{
    let fields = fixed_fields(variant, formats);
    let front = fields.take(5);
    let back = fields.skip(5);
    let tuples = join(variant.genotypes, '\t');
    assert(front + back == fields);
    lemma_join_concat(front, back, '\t');
    lemma_decimal_text_value(variant.position);
    assert forall|i: int| 0 <= i < front.len() implies !(#[trigger] front[i]).contains('\t') by {
        if i == 1 {
            let text = decimal_text(variant.position);
            assert forall|k: int| 0 <= k < text.len() implies text[k] != '\t' by {
                assert(is_digit(text[k]));
            }
        } else if i == 2 {
            assert(missing()[0] == '.');
        } else if i == 4 {
            assert forall|k: int| 0 <= k < variant.alternate.len() implies !(
            #[trigger] variant.alternate[k]).contains('\t') by {
                assert(is_plain(variant.alternate[k]));
            }
            lemma_join_clean(variant.alternate, ',', '\t');
        }
    }
    lemma_split_join(front, '\t');
    lemma_split_concat(join(front, '\t'), join(back, '\t'), '\t');
    lemma_split_concat(join(fields, '\t'), tuples, '\t');
    lemma_split_nonempty(join(back, '\t'), '\t');
    lemma_split_nonempty(tuples, '\t');
    let all = split(record_line(variant, formats), '\t');
    assert(all == (front + split(join(back, '\t'), '\t')) + split(tuples, '\t'));
    assert(all.len() >= 5);
    assert forall|i: int| 0 <= i < 5 implies all[i] == fields[i] by {
        assert(all[i] == front[i]);
    }
}

/// Whether the data line of `variant` keeps all its parts apart: the variant
/// is framed, it has a genotype tuple, and neither its annotation nor a
/// FORMAT key nor a genotype tuple holds a tab.
pub open spec fn is_tabular(variant: VariantView, formats: Seq<Seq<char>>) -> bool {
    &&& is_framed(variant, formats)
    &&& !variant.info.contains('\t')
    &&& forall|i: int| 0 <= i < formats.len() ==> !(#[trigger] formats[i]).contains('\t')
    &&& variant.genotypes.len() >= 1
    &&& forall|i: int|
        0 <= i < variant.genotypes.len() ==> !(#[trigger] variant.genotypes[i]).contains('\t')
}

/// The fields of the data line of a tabular variant are the nine fixed
/// fields, then the genotype tuples in their order, one in each field.
pub proof fn lemma_line_columns(variant: VariantView, formats: Seq<Seq<char>>)
    requires
        is_tabular(variant, formats),
    ensures
        split(record_line(variant, formats), '\t') == fixed_fields(variant, formats)
            + variant.genotypes,
{
    let fields = fixed_fields(variant, formats);
    lemma_decimal_text_value(variant.position);
    assert forall|i: int| 0 <= i < fields.len() implies !(#[trigger] fields[i]).contains('\t') by {
        if i == 1 {
            let text = decimal_text(variant.position);
            assert forall|k: int| 0 <= k < text.len() implies text[k] != '\t' by {
                assert(is_digit(text[k]));
            }
        } else if i == 2 || i == 5 || i == 6 {
            assert(missing()[0] == '.');
        } else if i == 4 {
            assert forall|k: int| 0 <= k < variant.alternate.len() implies !(
            #[trigger] variant.alternate[k]).contains('\t') by {
                assert(is_plain(variant.alternate[k]));
            }
            lemma_join_clean(variant.alternate, ',', '\t');
        } else if i == 8 {
            lemma_join_clean(formats, ':', '\t');
        }
    }
    lemma_split_join(fields, '\t');
    lemma_split_join(variant.genotypes, '\t');
    lemma_split_concat(join(fields, '\t'), join(variant.genotypes, '\t'), '\t');
}

/// The data line of a framed variant holds no line feed.
pub proof fn lemma_line_single(variant: VariantView, formats: Seq<Seq<char>>)
    requires
        is_framed(variant, formats),
    ensures
        record_line(variant, formats).len() > 0,
        !record_line(variant, formats).contains('\n'),
{
    let fields = fixed_fields(variant, formats);
    lemma_decimal_text_value(variant.position);
    assert forall|i: int| 0 <= i < fields.len() implies !(#[trigger] fields[i]).contains('\n') by {
        if i == 1 {
            let text = decimal_text(variant.position);
            assert forall|k: int| 0 <= k < text.len() implies text[k] != '\n' by {
                assert(is_digit(text[k]));
            }
        } else if i == 2 || i == 5 || i == 6 {
            assert(missing()[0] == '.');
        } else if i == 4 {
            assert forall|k: int| 0 <= k < variant.alternate.len() implies !(
            #[trigger] variant.alternate[k]).contains('\n') by {
                assert(is_plain(variant.alternate[k]));
            }
            lemma_join_clean(variant.alternate, ',', '\n');
        } else if i == 8 {
            lemma_join_clean(formats, ':', '\n');
        }
    }
    lemma_join_clean(fields, '\t', '\n');
    lemma_join_clean(variant.genotypes, '\t', '\n');
    let head = join(fields, '\t').push('\t');
    let tuples = join(variant.genotypes, '\t');
    let line = record_line(variant, formats);
    assert forall|k: int| 0 <= k < line.len() implies line[k] != '\n' by {
        if k < head.len() - 1 {
            assert(join(fields, '\t')[k] == line[k]);
            assert(join(fields, '\t').contains(line[k]));
        } else if k >= head.len() {
            assert(tuples[k - head.len()] == line[k]);
            assert(tuples.contains(line[k]));
        }
    }
}

/// The variant of a description that holds neither a tab nor a line feed is
/// framed, where the annotation and the FORMAT keys hold no line feed.
pub proof fn lemma_parsed_is_framed(
    description: Seq<char>,
    info: Option<Seq<char>>,
    formats: Seq<Seq<char>>,
)
    requires
        parsed(description, info) is Ok,
        is_plain(description),
        info is Some ==> !info->0.contains('\n'),
        forall|i: int| 0 <= i < formats.len() ==> !(#[trigger] formats[i]).contains('\n'),
    ensures
        is_framed(parsed(description, info)->Ok_0, formats),
{
    let variant = parsed(description, info)->Ok_0;
    let sections = sections_of(description);
    let location = location_of(description);
    lemma_parsed_shape(description, info);
    lemma_piece_of_clean(description, '|', '\t', 0);
    lemma_piece_of_clean(description, '|', '\n', 0);
    assert forall|i: int| 0 <= i < location.len() implies is_plain(#[trigger] location[i]) by {
        lemma_piece_of_clean(sections[0], '-', '\t', i);
        lemma_piece_of_clean(sections[0], '-', '\n', i);
    }
    assert(is_plain(location[0]) && is_plain(location[2]) && is_plain(location[3]));
    assert forall|i: int| 0 <= i < variant.alternate.len() implies is_plain(
        #[trigger] variant.alternate[i],
    ) && !variant.alternate[i].contains(',') by {
        lemma_piece_of_clean(location[3], ',', '\t', i);
        lemma_piece_of_clean(location[3], ',', '\n', i);
    }
    assert forall|i: int| 0 <= i < variant.genotypes.len() implies !(
    #[trigger] variant.genotypes[i]).contains('\n') by {
        lemma_piece_of_clean(description, '|', '\n', i + 1);
        assert(variant.genotypes[i] == sections[i + 1]);
    }
    if info is None {
        assert(missing_info()[0] == '.');
    }
}

/// Composing the data line of a framed variant and decoding it gives the
/// variant's chromosome, position, reference allele and alternate alleles
/// back, in the sense of `reproduces`.
pub proof fn lemma_decoded_reproduces(
    variant: VariantView,
    formats: Seq<Seq<char>>,
    record: Record,
)
    requires
        is_framed(variant, formats),
        variant.position <= usize::MAX,
        decodes_to(record_line(variant, formats), record),
    ensures
        reproduces(record, variant),
{
    lemma_line_fields(variant, formats);
    lemma_decimal_text_value(variant.position);
    let number = decimal_text(variant.position);
    if number == seq!['0'] {
        assert(digits_of(number) == number);
        assert(number.drop_last() == Seq::<char>::empty());
        assert(digits_value(number.drop_last()) == 0);
        assert(digits_value(number) == 0);
    }
    if variant.position == 0 {
        assert(number =~= seq!['0']);
    }
    let alleles = join(variant.alternate, ',');
    assert forall|i: int| 0 <= i < variant.alternate.len() implies !(
    #[trigger] variant.alternate[i]).contains(',') by {
        assert(is_plain(variant.alternate[i]));
    }
    lemma_split_join(variant.alternate, ',');
    if alleles == missing() {
        assert(missing()[0] == '.');
        lemma_split_clean(missing(), ',');
    }
    if variant.alternate == seq![missing()] {
        assert(alleles == missing());
    }
    assert(views(record.alternate@) == if variant.alternate == seq![missing()] {
        Seq::<Seq<char>>::empty()
    } else {
        variant.alternate
    });
}

/// Turns what the codec said of the data line of the variant at `index`
/// into the result of building its record.
pub fn finish_record(index: usize, outcome: Result<Record, std::io::Error>) -> (r: Result<
    Record,
    RecordError,
>)
    ensures
        match outcome {
            Ok(record) => r == Ok::<Record, RecordError>(record),
            Err(error) => {
                &&& r matches Err(RecordError::Codec { index: at, reason })
                &&& at == index
                &&& vstd::string::to_string_from_display_ensures::<std::io::Error>(&error, reason)
            },
        },
{
    match outcome {
        Ok(record) => Ok(record),
        Err(error) => Err(RecordError::Codec { index, reason: error.to_string() }),
    }
}

/// Builds the record of the variant at `index`, counted from 0, in the list
/// of variants. A variant that has not one genotype tuple for each sample of
/// `header` is refused before anything is composed. Otherwise the data line
/// of the variant is composed and handed to the codec, which decodes it
/// against the header or refuses it.
pub fn build_record(variant: &Variant, index: usize, header: &VcfHeader) -> (r: Result<
    Record,
    RecordError,
>)
    ensures
        variant.genotypes.len() != header.samples.len() ==> (r matches Err(
            RecordError::SampleCountMismatch { genotypes, samples },
        ) && genotypes == variant.genotypes.len() && samples == header.samples.len()),
        variant.genotypes.len() == header.samples.len() ==> match r {
            Ok(record) => {
                let line = record_line(variant@, views(header.formats@));
                &&& codec_accepts(header.codec, line)
                &&& !line.contains('\n') ==> decodes_to(line, record)
                &&& is_framed(variant@, views(header.formats@)) ==> reproduces(record, variant@)
            },
            Err(error) => {
                &&& !codec_accepts(header.codec, record_line(variant@, views(header.formats@)))
                &&& error matches RecordError::Codec { index: at, .. } && at == index
            },
        },
{
    if variant.genotypes.len() != header.samples.len() {
        return Err(
            RecordError::SampleCountMismatch {
                genotypes: variant.genotypes.len(),
                samples: header.samples.len(),
            },
        );
    }
    let line = compose_line(variant, header.formats.as_slice());
    let outcome = decode_line(&header.codec, line.as_str());
    assert(line@.len() > 0);
    proof {
        if outcome is Ok && is_framed(variant@, views(header.formats@)) {
            lemma_line_single(variant@, views(header.formats@));
            lemma_decoded_reproduces(variant@, views(header.formats@), outcome->Ok_0);
        }
    }
    finish_record(index, outcome)
}

} // verus!
