//! The compact description of one variant and its reading.
//!
//! A description has the form `CHR-POS-REF-ALT|GENOTYPE|GENOTYPE...`: a
//! location block, then one genotype tuple for each sample, with `|` between
//! them. In the location block `-` stands between the four fields, and `,`
//! between the alternate alleles of a multi-allelic site. None of the three
//! delimiters can be escaped.

use vstd::prelude::*;
use crate::decimal::{is_number, number_value, parse_number};
use crate::text::{
    lemma_piece_of_clean, lemma_split_nonempty, lemma_split_pieces_clean, split, split_text, views,
};

verus! {

/// One variant with the genotype tuples of its samples.
#[derive(Debug)]
pub struct Variant {
    pub chromosome: String,
    pub position: usize,
    pub reference: String,
    /// The alternate alleles, in the order in which they were written.
    pub alternate: Vec<String>,
    /// The annotation of the variant, or `.` where it has none.
    pub info: String,
    /// One genotype tuple for each sample, unread.
    pub genotypes: Vec<String>,
}

/// What a `Variant` holds, as mathematical values.
pub ghost struct VariantView {
    pub chromosome: Seq<char>,
    pub position: nat,
    pub reference: Seq<char>,
    pub alternate: Seq<Seq<char>>,
    pub info: Seq<char>,
    pub genotypes: Seq<Seq<char>>,
}

impl View for Variant {
    type V = VariantView;

    open spec fn view(&self) -> VariantView {
        VariantView {
            chromosome: self.chromosome@,
            position: self.position as nat,
            reference: self.reference@,
            alternate: views(self.alternate@),
            info: self.info@,
            genotypes: views(self.genotypes@),
        }
    }
}

/// Why a description was refused. Each case carries the text at fault.
#[derive(Debug)]
pub enum VariantError {
    /// The description has no genotype tuple; holds the whole description.
    MissingGenotypes(String),
    /// The location block has not exactly four fields; holds the block.
    MalformedLocation(String),
    /// The position is no non-negative integer that `usize` can hold; holds
    /// the position field.
    InvalidPosition(String),
}

/// What a `VariantError` holds, as mathematical values.
pub ghost enum VariantErrorView {
    MissingGenotypes(Seq<char>),
    MalformedLocation(Seq<char>),
    InvalidPosition(Seq<char>),
}

impl View for VariantError {
    type V = VariantErrorView;

    open spec fn view(&self) -> VariantErrorView {
        match self {
            VariantError::MissingGenotypes(s) => VariantErrorView::MissingGenotypes(s@),
            VariantError::MalformedLocation(s) => VariantErrorView::MalformedLocation(s@),
            VariantError::InvalidPosition(s) => VariantErrorView::InvalidPosition(s@),
        }
    }
}

impl VariantError {
    /// What the user is told of this error.
    pub open spec fn message_text(&self) -> Seq<char> {
        match self {
            VariantError::MissingGenotypes(description) => {
                "Invalid variant format. Genotype section required: "@ + description@
            },
            VariantError::MalformedLocation(block) => {
                "Invalid variant format. Expected format CHR-POS-REF-ALT, but got: "@ + block@
            },
            VariantError::InvalidPosition(field) => {
                "Invalid variant format. Position is no non-negative integer: "@ + field@
            },
        }
    }

    /// What the user is told of this error: the rule that was broken, then
    /// the text at fault.
    pub fn message(&self) -> (message: String)
        ensures
            message@ == self.message_text(),
    {
        match self {
            VariantError::MissingGenotypes(description) => {
                "Invalid variant format. Genotype section required: ".to_owned().concat(
                    description.as_str(),
                )
            },
            VariantError::MalformedLocation(block) => {
                "Invalid variant format. Expected format CHR-POS-REF-ALT, but got: ".to_owned().concat(
                    block.as_str(),
                )
            },
            VariantError::InvalidPosition(field) => {
                "Invalid variant format. Position is no non-negative integer: ".to_owned().concat(
                    field.as_str(),
                )
            },
        }
    }
}

/// The annotation of a variant that has none.
pub open spec fn missing_info() -> Seq<char> {
    seq!['.']
}

/// The sections of a description: the location block, then the genotype
/// tuples.
pub open spec fn sections_of(description: Seq<char>) -> Seq<Seq<char>> {
    split(description, '|')
}

/// The fields of the location block of a description.
pub open spec fn location_of(description: Seq<char>) -> Seq<Seq<char>> {
    split(sections_of(description)[0], '-')
}

/// Whether `field` writes a position that `usize` can hold.
pub open spec fn is_position(field: Seq<char>) -> bool {
    is_number(field) && number_value(field) <= usize::MAX
}

/// Whether `description` is well formed: it has a location block and at
/// least one genotype tuple, the location block has four fields, and the
/// second of them is a position.
pub open spec fn is_well_formed(description: Seq<char>) -> bool {
    &&& sections_of(description).len() >= 2
    &&& location_of(description).len() == 4
    &&& is_position(location_of(description)[1])
}

/// What reading `description` gives: the variant, or the first rule that the
/// description breaks, in the order sections, location block, position.
pub open spec fn parsed(description: Seq<char>, info: Option<Seq<char>>) -> Result<
    VariantView,
    VariantErrorView,
> {
    let sections = sections_of(description);
    let location = location_of(description);
    if sections.len() < 2 {
        Err(VariantErrorView::MissingGenotypes(description))
    } else if location.len() != 4 {
        Err(VariantErrorView::MalformedLocation(sections[0]))
    } else if !is_position(location[1]) {
        Err(VariantErrorView::InvalidPosition(location[1]))
    } else {
        Ok(
            VariantView {
                chromosome: location[0],
                position: number_value(location[1]),
                reference: location[2],
                alternate: split(location[3], ','),
                info: match info {
                    Some(text) => text,
                    None => missing_info(),
                },
                genotypes: sections.skip(1),
            },
        )
    }
}

/// The annotation handed to the parser, as a mathematical value.
pub open spec fn info_view(info_option: Option<&String>) -> Option<Seq<char>> {
    match info_option {
        Some(text) => Some(text@),
        None => None,
    }
}

/// Reads one description. The result is `parsed` of the arguments: the same
/// description and annotation always give the same variant or the same
/// error.
pub fn parse_variant(variant_str: &str, info_option: &Option<&String>) -> (r: Result<
    Variant,
    VariantError,
>)
    ensures
        match r {
            Ok(variant) => parsed(variant_str@, info_view(*info_option)) == Ok::<
                VariantView,
                VariantErrorView,
            >(variant@),
            Err(error) => parsed(variant_str@, info_view(*info_option)) == Err::<
                VariantView,
                VariantErrorView,
            >(error@),
        },
{
    let mut sections = split_text(variant_str, '|');
    if sections.len() < 2 {
        return Err(VariantError::MissingGenotypes(variant_str.to_owned()));
    }
    let ghost all = views(sections@);
    let block = sections.remove(0);
    assert(views(sections@) == all.skip(1));
    let location = split_text(block.as_str(), '-');
    if location.len() != 4 {
        return Err(VariantError::MalformedLocation(block));
    }
    let position: usize = match parse_number(location[1].as_str()) {
        Some(position) => position,
        None => {
            return Err(VariantError::InvalidPosition(location[1].clone()));
        },
    };
    let info = match info_option {
        Some(text) => (*text).clone(),
        None => {
            proof {
                reveal_strlit(".");
            }
            assert("."@ == missing_info());
            ".".to_owned()
        },
    };
    let variant = Variant {
        chromosome: location[0].clone(),
        position,
        reference: location[2].clone(),
        alternate: split_text(location[3].as_str(), ','),
        info,
        genotypes: sections,
    };
    Ok(variant)
}

/// Reading is total on the well-formed descriptions, and refuses all others:
/// whether a description is read does not depend on the annotation.
pub proof fn lemma_parsed_total(description: Seq<char>, info: Option<Seq<char>>)
    ensures
        parsed(description, info) is Ok <==> is_well_formed(description),
        info is None && parsed(description, info) is Ok ==> parsed(description, info)->Ok_0.info
            == missing_info(),
{
}

/// A description that is read has at least one alternate allele and one
/// genotype tuple, and none of its parts holds the delimiter that it was cut
/// at.
pub proof fn lemma_parsed_shape(description: Seq<char>, info: Option<Seq<char>>)
    requires
        parsed(description, info) is Ok,
    ensures
        ({
            let variant = parsed(description, info)->Ok_0;
            &&& variant.alternate.len() >= 1
            &&& variant.genotypes.len() >= 1
            &&& variant.genotypes.len() + 1 == sections_of(description).len()
            &&& !variant.chromosome.contains('-') && !variant.chromosome.contains('|')
            &&& !variant.reference.contains('-') && !variant.reference.contains('|')
            &&& forall|i: int|
                0 <= i < variant.alternate.len() ==> {
                    &&& !(#[trigger] variant.alternate[i]).contains(',')
                    &&& !variant.alternate[i].contains('-')
                    &&& !variant.alternate[i].contains('|')
                }
            &&& forall|i: int|
                0 <= i < variant.genotypes.len() ==> !(#[trigger] variant.genotypes[i]).contains(
                    '|',
                )
        }),
{
    let sections = sections_of(description);
    let location = location_of(description);
    let variant = parsed(description, info)->Ok_0;
    lemma_split_pieces_clean(description, '|');
    lemma_split_pieces_clean(sections[0], '-');
    lemma_split_pieces_clean(location[3], ',');
    lemma_split_nonempty(location[3], ',');
    assert forall|i: int| 0 <= i < location.len() implies !(#[trigger] location[i]).contains(
        '|',
    ) by {
        lemma_piece_of_clean(sections[0], '-', '|', i);
    }
    assert forall|i: int| 0 <= i < variant.alternate.len() implies {
        &&& !(#[trigger] variant.alternate[i]).contains(',')
        &&& !variant.alternate[i].contains('-')
        &&& !variant.alternate[i].contains('|')
    } by {
        lemma_piece_of_clean(location[3], ',', '-', i);
        lemma_piece_of_clean(location[3], ',', '|', i);
    }
    assert forall|i: int| 0 <= i < variant.genotypes.len() implies !(
    #[trigger] variant.genotypes[i]).contains('|') by {
        assert(variant.genotypes[i] == sections[i + 1]);
    }
}

} // verus!
