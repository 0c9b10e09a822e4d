//! The header of a fixture: what it declares, and the codec's header that
//! declares it.

use vstd::prelude::*;
use crate::codec::{
    add_format, add_info, add_sample_name, build, builder_declarations, declared,
    header_declarations, insert_text, is_standard_key, new_builder, parse_other_key, set_version,
    Declarations,
};
use crate::keys::{
    declares, info_keys, key_of, key_set, keys_of_tokens, lemma_declared_keys_permutation,
    lemma_precedes_irreflexive, precedes, strictly_sorted, tokens_of,
};
use crate::text::{copy_texts, views};

verus! {

/// The major number of the file format that the header announces.
pub const FORMAT_MAJOR: u32 = 4;

/// The minor number of the file format that the header announces.
pub const FORMAT_MINOR: u32 = 2;

/// The key of the header record that holds the reference assembly.
pub open spec fn assembly_key() -> Seq<char> {
    "assembly"@
}

/// The header of a fixture.
#[derive(Debug)]
pub struct VcfHeader {
    /// The reference assembly.
    pub assembly: String,
    /// The FORMAT keys of the genotype tuples, as they were given.
    pub formats: Vec<String>,
    /// The INFO keys, each once and in lexicographic order.
    pub infos: Vec<String>,
    /// The sample names, as they were given.
    pub samples: Vec<String>,
    /// The codec's header, against which the records are decoded.
    pub codec: noodles::vcf::Header,
}

/// Why no header was built.
#[derive(Debug, Clone, Copy, PartialEq, Eq)]
pub enum HeaderError {
    /// The codec reserves the key of the assembly record.
    ReservedKey,
    /// The codec did not take the assembly record.
    Refused,
}

impl HeaderError {
    /// What the user is told of this error.
    pub open spec fn message_text(&self) -> Seq<char> {
        match self {
            HeaderError::ReservedKey => "The header key of the assembly is reserved"@,
            HeaderError::Refused => "The header did not take the assembly"@,
        }
    }

    /// What the user is told of this error.
    pub fn message(&self) -> (message: String)
        ensures
            message@ == self.message_text(),
    {
        match self {
            HeaderError::ReservedKey => "The header key of the assembly is reserved".to_owned(),
            HeaderError::Refused => "The header did not take the assembly".to_owned(),
        }
    }
}

/// `names` without the repetitions: each name stands where it stood first.
pub open spec fn first_occurrences(names: Seq<Seq<char>>) -> Seq<Seq<char>>
    decreases names.len(),
{
    if names.len() == 0 {
        Seq::empty()
    } else {
        declared(first_occurrences(names.drop_last()), names.last())
    }
}

/// What the codec's header declares for an assembly, a list of FORMAT keys,
/// a list of INFO keys and a list of sample names: a key or a name that is
/// given twice is declared once.
pub open spec fn declarations_of(
    assembly: Seq<char>,
    formats: Seq<Seq<char>>,
    infos: Seq<Seq<char>>,
    samples: Seq<Seq<char>>,
) -> Declarations {
    Declarations {
        version: (FORMAT_MAJOR, FORMAT_MINOR),
        others: Map::<Seq<char>, Option<Seq<Seq<char>>>>::empty().insert(
            assembly_key(),
            Some(seq![assembly]),
        ),
        infos: first_occurrences(infos),
        formats: first_occurrences(formats),
        samples: first_occurrences(samples),
    }
}

impl VcfHeader {
    /// Whether the codec's header declares what this header lists, and the
    /// INFO keys stand in lexicographic order, each once.
    pub open spec fn wf(&self) -> bool {
        &&& strictly_sorted(views(self.infos@))
        &&& header_declarations(self.codec) == declarations_of(
            self.assembly@,
            views(self.formats@),
            views(self.infos@),
            views(self.samples@),
        )
    }

    /// Whether this is the header of the assembly `assembly`, the FORMAT
    /// keys `format_fields`, the sample names `samples` and the annotations
    /// `infos`.
    pub open spec fn describes(
        &self,
        assembly: Seq<char>,
        format_fields: Seq<String>,
        samples: Seq<String>,
        infos: Seq<String>,
    ) -> bool {
        &&& self.wf()
        &&& self.assembly@ == assembly
        &&& self.formats@ == format_fields
        &&& self.samples@ == samples
        &&& declares(views(self.infos@), views(infos))
    }
}

/// A list in lexicographic order without repetition is its own list of
/// first occurrences.
pub proof fn lemma_sorted_first_occurrences(keys: Seq<Seq<char>>)
    requires
        strictly_sorted(keys),
    ensures
        first_occurrences(keys) == keys,
    decreases keys.len(),
{
    if keys.len() > 0 {
        let front = keys.drop_last();
        assert(strictly_sorted(front)) by {
            assert forall|i: int, j: int| 0 <= i < j < front.len() implies precedes(
                #[trigger] front[i],
                #[trigger] front[j],
            ) by {
                assert(front[i] == keys[i] && front[j] == keys[j]);
            }
        }
        lemma_sorted_first_occurrences(front);
        if front.contains(keys.last()) {
            let i = choose|i: int| 0 <= i < front.len() && front[i] == keys.last();
            assert(precedes(keys[i], keys[keys.len() - 1]));
            lemma_precedes_irreflexive(keys.last(), 0);
        }
        assert(front.push(keys.last()) =~= keys);
    } else {
        assert(keys =~= Seq::<Seq<char>>::empty());
    }
}

/// The codec's header declares every key that a token of an annotation
/// uses, and the INFO keys that it declares are those that the header lists.
pub proof fn lemma_header_declares_keys(
    header: VcfHeader,
    assembly: Seq<char>,
    format_fields: Seq<String>,
    samples: Seq<String>,
    infos: Seq<String>,
)
    requires
        header.describes(assembly, format_fields, samples, infos),
    ensures
        header_declarations(header.codec).infos == views(header.infos@),
        forall|i: int, j: int|
            0 <= i < infos.len() && 0 <= j < tokens_of(infos[i]@).len() ==> header_declarations(
                header.codec,
            ).infos.contains(key_of(#[trigger] tokens_of(infos[i]@)[j])),
{
    let keys = views(header.infos@);
    lemma_sorted_first_occurrences(keys);
    assert forall|i: int, j: int|
        0 <= i < infos.len() && 0 <= j < tokens_of(infos[i]@).len() implies keys.contains(
        key_of(#[trigger] tokens_of(infos[i]@)[j]),
    ) by {
        let key = key_of(tokens_of(infos[i]@)[j]);
        assert(views(infos)[i] == infos[i]@);
        assert(keys_of_tokens(tokens_of(views(infos)[i])).contains(key));
        assert(key_set(views(infos)).contains(key));
        assert(keys.to_set().contains(key));
    }
}

/// Two headers that differ only in the order in which the annotations were
/// given list the same INFO keys in the same order, and their codec headers
/// declare the same.
pub proof fn lemma_header_ignores_info_order(
    one: VcfHeader,
    other: VcfHeader,
    assembly: Seq<char>,
    format_fields: Seq<String>,
    samples: Seq<String>,
    infos_one: Seq<String>,
    infos_other: Seq<String>,
)
    requires
        one.describes(assembly, format_fields, samples, infos_one),
        other.describes(assembly, format_fields, samples, infos_other),
        views(infos_one).to_multiset() == views(infos_other).to_multiset(),
    ensures
        views(one.infos@) == views(other.infos@),
        header_declarations(one.codec) == header_declarations(other.codec),
{
    lemma_declared_keys_permutation(
        views(one.infos@),
        views(infos_one),
        views(other.infos@),
        views(infos_other),
    );
}

/// Builds the header of a fixture: file format 4.2, the assembly under the
/// key `assembly`, one FORMAT declaration for each field in the order given,
/// one INFO declaration for each key that the annotations `infos` use, in
/// lexicographic order, and the sample names in the order given. The codec
/// refuses none of these, so a header is always built.
pub fn build_header(
    assembly: &str,
    format_fields: &[String],
    samples: &[String],
    infos: &[String],
) -> (r: Result<VcfHeader, HeaderError>)
    ensures
        r matches Ok(header) && header.describes(assembly@, format_fields@, samples@, infos@),
{
    let versioned = set_version(new_builder(), FORMAT_MAJOR, FORMAT_MINOR);
    proof {
        reveal_strlit("assembly");
        reveal_strlit("fileformat");
        reveal_strlit("INFO");
        reveal_strlit("FILTER");
        reveal_strlit("FORMAT");
        reveal_strlit("ALT");
        reveal_strlit("contig");
        assert("assembly"@.len() == 8);
        assert("fileformat"@.len() == 10);
        assert("INFO"@.len() == 4);
        assert("FILTER"@.len() == 6);
        assert("FORMAT"@.len() == 6);
        assert("ALT"@.len() == 3);
        assert("contig"@.len() == 6);
        assert(!is_standard_key("assembly"@));
    }
    let key = match parse_other_key("assembly") {
        Ok(key) => key,
        Err(_) => {
            return Err(HeaderError::ReservedKey);
        },
    };
    let mut builder = match insert_text(versioned, key, assembly) {
        Ok(builder) => builder,
        Err(_) => {
            return Err(HeaderError::Refused);
        },
    };
    let ghost none = Seq::<Seq<char>>::empty();
    let ghost wanted = declarations_of(assembly@, none, none, none);
    assert(builder_declarations(builder).others =~= wanted.others);
    assert(builder_declarations(builder) == wanted);

    let mut i: usize = 0;
    while i < format_fields.len()
        invariant
            i <= format_fields.len(),
            builder_declarations(builder) == declarations_of(
                assembly@,
                views(format_fields@).take(i as int),
                none,
                none,
            ),
        decreases format_fields.len() - i,
    {
        let ghost next = views(format_fields@).take(i + 1);
        assert(next.drop_last() == views(format_fields@).take(i as int));
        builder = add_format(builder, format_fields[i].as_str());
        i += 1;
    }
    assert(views(format_fields@).take(i as int) == views(format_fields@));

    let keys = info_keys(infos);
    let mut j: usize = 0;
    while j < keys.len()
        invariant
            j <= keys.len(),
            builder_declarations(builder) == declarations_of(
                assembly@,
                views(format_fields@),
                views(keys@).take(j as int),
                none,
            ),
        decreases keys.len() - j,
    {
        let ghost next = views(keys@).take(j + 1);
        assert(next.drop_last() == views(keys@).take(j as int));
        builder = add_info(builder, keys[j].as_str());
        j += 1;
    }
    assert(views(keys@).take(j as int) == views(keys@));

    let mut k: usize = 0;
    while k < samples.len()
        invariant
            k <= samples.len(),
            builder_declarations(builder) == declarations_of(
                assembly@,
                views(format_fields@),
                views(keys@),
                views(samples@).take(k as int),
            ),
        decreases samples.len() - k,
    {
        let ghost next = views(samples@).take(k + 1);
        assert(next.drop_last() == views(samples@).take(k as int));
        builder = add_sample_name(builder, samples[k].as_str());
        k += 1;
    }
    assert(views(samples@).take(k as int) == views(samples@));

    let header = VcfHeader {
        assembly: assembly.to_owned(),
        formats: copy_texts(format_fields),
        infos: keys,
        samples: copy_texts(samples),
        codec: build(builder),
    };
    Ok(header)
}

} // verus!
