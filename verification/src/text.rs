//! Splitting and joining of text on a single delimiter character.

use vstd::prelude::*;

verus! {

/// The character sequences of a sequence of strings.
pub open spec fn views(v: Seq<String>) -> Seq<Seq<char>> {
    Seq::new(v.len(), |i: int| v[i]@)
}

/// The pieces of `s` between occurrences of `d`. There is always at least one
/// piece; a text without `d` is its own single piece, and two neighbouring
/// delimiters enclose an empty piece. It is the one list of pieces without
/// `d` whose joining is `s`: see `lemma_split_pieces_clean`,
/// `lemma_join_split` and `lemma_split_join`.
pub open spec fn split(s: Seq<char>, d: char) -> Seq<Seq<char>>
    decreases s.len(),
{
    if s.len() == 0 {
        seq![Seq::<char>::empty()]
    } else {
        let before = split(s.drop_last(), d);
        if s.last() == d {
            before.push(Seq::<char>::empty())
        } else {
            before.drop_last().push(before.last().push(s.last()))
        }
    }
}

/// The pieces of `parts` written one after another with `d` between them.
pub open spec fn join(parts: Seq<Seq<char>>, d: char) -> Seq<char>
    decreases parts.len(),
{
    if parts.len() == 0 {
        Seq::<char>::empty()
    } else if parts.len() == 1 {
        parts[0]
    } else {
        join(parts.drop_last(), d).push(d) + parts.last()
    }
}

/// A splitting is never empty.
pub proof fn lemma_split_nonempty(s: Seq<char>, d: char)
    ensures
        split(s, d).len() >= 1,
    decreases s.len(),
{
    if s.len() > 0 {
        lemma_split_nonempty(s.drop_last(), d);
    }
}

/// No piece of a splitting holds the delimiter.
pub proof fn lemma_split_pieces_clean(s: Seq<char>, d: char)
    ensures
        forall|i: int| 0 <= i < split(s, d).len() ==> !(#[trigger] split(s, d)[i]).contains(d),
    decreases s.len(),
{
    if s.len() > 0 {
        let before = split(s.drop_last(), d);
        lemma_split_nonempty(s.drop_last(), d);
        lemma_split_pieces_clean(s.drop_last(), d);
        if s.last() != d {
            let grown = before.last().push(s.last());
            assert(!before.last().contains(d));
            assert forall|k: int| 0 <= k < grown.len() implies grown[k] != d by {
                if k < before.last().len() {
                    assert(before.last()[k] == grown[k]);
                    assert(before.last().contains(grown[k]));
                }
            }
        }
    }
}

/// A piece of a text that is free of `c` is free of `c`.
pub proof fn lemma_piece_of_clean(s: Seq<char>, d: char, c: char, i: int)
    requires
        !s.contains(c),
        0 <= i < split(s, d).len(),
    ensures
        !split(s, d)[i].contains(c),
    decreases s.len(),
{
    if s.len() > 0 {
        let before = split(s.drop_last(), d);
        lemma_split_nonempty(s.drop_last(), d);
        assert(s[s.len() - 1] == s.last());
        assert(s.last() != c);
        assert forall|k: int| 0 <= k < s.drop_last().len() implies s.drop_last()[k] != c by {
            assert(s[k] == s.drop_last()[k]);
        }
        if i < before.len() - 1 || (s.last() == d && i < before.len()) {
            lemma_piece_of_clean(s.drop_last(), d, c, i);
        } else if s.last() != d {
            lemma_piece_of_clean(s.drop_last(), d, c, before.len() - 1);
            let grown = before.last().push(s.last());
            assert forall|k: int| 0 <= k < grown.len() implies grown[k] != c by {
                if k < before.last().len() {
                    assert(before.last()[k] == grown[k]);
                    assert(before.last().contains(grown[k]));
                }
            }
        }
    }
}

/// A text without the delimiter is its own single piece.
pub proof fn lemma_split_clean(s: Seq<char>, d: char)
    requires
        !s.contains(d),
    ensures
        split(s, d) == seq![s],
    decreases s.len(),
{
    if s.len() > 0 {
        assert(s[s.len() - 1] == s.last());
        assert(s.contains(s.last()));
        assert forall|k: int| 0 <= k < s.drop_last().len() implies s.drop_last()[k] != d by {
            assert(s[k] == s.drop_last()[k]);
            assert(s.contains(s[k]));
        }
        lemma_split_clean(s.drop_last(), d);
        assert(s.drop_last().push(s.last()) == s);
        assert(split(s, d) =~= seq![s]);
    } else {
        assert(s =~= Seq::<char>::empty());
    }
}

/// Splitting distributes over a delimiter between two texts.
pub proof fn lemma_split_concat(a: Seq<char>, b: Seq<char>, d: char)
    ensures
        split(a.push(d) + b, d) == split(a, d) + split(b, d),
    decreases b.len(),
{
    let whole = a.push(d) + b;
    if b.len() == 0 {
        assert(whole == a.push(d));
        assert(whole.drop_last() == a);
        assert(split(whole, d) =~= split(a, d) + split(b, d));
    } else {
        lemma_split_concat(a, b.drop_last(), d);
        lemma_split_nonempty(b.drop_last(), d);
        assert(whole.drop_last() == a.push(d) + b.drop_last());
        assert(whole.last() == b.last());
        assert(split(whole, d) =~= split(a, d) + split(b, d));
    }
}

/// Joining a splitting gives the text back.
pub proof fn lemma_join_split(s: Seq<char>, d: char)
    ensures
        join(split(s, d), d) == s,
    decreases s.len(),
{
    lemma_split_nonempty(s, d);
    if s.len() > 0 {
        let before = split(s.drop_last(), d);
        lemma_split_nonempty(s.drop_last(), d);
        lemma_join_split(s.drop_last(), d);
        assert(s.drop_last().push(s.last()) =~= s);
        if s.last() == d {
            let now = before.push(Seq::<char>::empty());
            assert(now.drop_last() == before);
            assert(join(now, d) =~= s);
        } else {
            let grown = before.last().push(s.last());
            let now = before.drop_last().push(grown);
            assert(now.drop_last() == before.drop_last());
            assert(now.last() == grown);
            if before.len() == 1 {
                assert(join(before, d) == before.last());
            } else {
                let head = join(before.drop_last(), d).push(d);
                assert(join(before, d) == head + before.last());
                assert(join(now, d) == head + grown);
                assert(head + grown =~= (head + before.last()).push(s.last()));
            }
        }
    }
}

/// Splitting a joining gives the pieces back, where there is at least one
/// piece and none holds the delimiter.
pub proof fn lemma_split_join(parts: Seq<Seq<char>>, d: char)
    requires
        parts.len() >= 1,
        forall|i: int| 0 <= i < parts.len() ==> !(#[trigger] parts[i]).contains(d),
    ensures
        split(join(parts, d), d) == parts,
    decreases parts.len(),
{
    if parts.len() == 1 {
        lemma_split_clean(parts[0], d);
        assert(seq![parts[0]] =~= parts);
    } else {
        let front = parts.drop_last();
        assert forall|i: int| 0 <= i < front.len() implies !(#[trigger] front[i]).contains(d) by {
            assert(front[i] == parts[i]);
        }
        lemma_split_join(front, d);
        lemma_split_concat(join(front, d), parts.last(), d);
        lemma_split_clean(parts.last(), d);
        assert(front + seq![parts.last()] =~= parts);
    }
}

/// Joining two lists of pieces, one after the other, joins their joinings.
pub proof fn lemma_join_concat(a: Seq<Seq<char>>, b: Seq<Seq<char>>, d: char)
    requires
        a.len() >= 1,
        b.len() >= 1,
    ensures
        join(a + b, d) == join(a, d).push(d) + join(b, d),
    decreases b.len(),
{
    let whole = a + b;
    assert(whole.drop_last() == a + b.drop_last());
    assert(whole.last() == b.last());
    if b.len() == 1 {
        assert(a + b.drop_last() == a);
        assert(join(whole, d) =~= join(a, d).push(d) + join(b, d));
    } else {
        lemma_join_concat(a, b.drop_last(), d);
        assert(join(whole, d) =~= join(a, d).push(d) + join(b, d));
    }
}

/// A joining holds no character that neither the pieces nor the delimiter
/// hold.
pub proof fn lemma_join_clean(parts: Seq<Seq<char>>, d: char, c: char)
    requires
        c != d,
        forall|i: int| 0 <= i < parts.len() ==> !(#[trigger] parts[i]).contains(c),
    ensures
        !join(parts, d).contains(c),
    decreases parts.len(),
{
    if parts.len() >= 2 {
        let front = parts.drop_last();
        assert forall|i: int| 0 <= i < front.len() implies !(#[trigger] front[i]).contains(c) by {
            assert(front[i] == parts[i]);
        }
        lemma_join_clean(front, d, c);
        let head = join(front, d).push(d);
        let whole = head + parts.last();
        assert(!parts[parts.len() - 1].contains(c));
        assert forall|k: int| 0 <= k < whole.len() implies whole[k] != c by {
            if k < head.len() - 1 {
                assert(join(front, d)[k] == whole[k]);
                assert(join(front, d).contains(whole[k]));
            } else if k >= head.len() {
                assert(parts.last()[k - head.len()] == whole[k]);
                assert(parts.last().contains(whole[k]));
            }
        }
    } else if parts.len() == 1 {
        assert(join(parts, d) == parts[0]);
    }
}

/// `String::push` of std: appends one character to the end of the string.
#[verifier::external_body]
pub(crate) fn push_char(s: &mut String, c: char)
    ensures
        final(s)@ == old(s)@.push(c),
{
    s.push(c)
}

/// The characters of `s`, in order.
pub fn chars_of(s: &str) -> (out: Vec<char>)
    ensures
        out@ == s@,
{
    let mut out: Vec<char> = Vec::new();
    for c in it: s.chars()
        invariant
            out@ == it.seq().take(it.index() as int),
            it.seq() == s@,
    {
        out.push(c);
    }
    out
}

/// Whether `a` and `b` are the same text.
pub fn same_text(a: &str, b: &str) -> (same: bool)
    ensures
        same == (a@ == b@),
{
    let x = chars_of(a);
    let y = chars_of(b);
    if x.len() != y.len() {
        return false;
    }
    let mut i: usize = 0;
    while i < x.len()
        invariant
            i <= x.len(),
            x.len() == y.len(),
            x@ == a@,
            y@ == b@,
            forall|j: int| 0 <= j < i ==> x@[j] == y@[j],
        decreases x.len() - i,
    {
        if x[i] != y[i] {
            return false;
        }
        i += 1;
    }
    assert(x@ =~= y@);
    true
}

/// Splits `s` on every occurrence of `d`.
pub fn split_text(s: &str, d: char) -> (parts: Vec<String>)
    ensures
        views(parts@) == split(s@, d),
{
    let mut parts: Vec<String> = Vec::new();
    let mut piece = String::new();
    for c in it: s.chars()
        invariant
            it.seq() == s@,
            views(parts@).push(piece@) == split(s@.take(it.index() as int), d),
    {
        let ghost seen = s@.take(it.index() as int);
        let ghost next = s@.take(it.index() + 1);
        assert(next.drop_last() == seen);
        assert(next.last() == c);
        if c == d {
            parts.push(piece);
            piece = String::new();
        } else {
            push_char(&mut piece, c);
        }
        assert(views(parts@).push(piece@) == split(next, d));
    }
    assert(s@.take(s@.len() as int) == s@);
    parts.push(piece);
    parts
}

/// A copy of the texts `texts`.
pub fn copy_texts(texts: &[String]) -> (out: Vec<String>)
    ensures
        out@ == texts@,
{
    let mut out: Vec<String> = Vec::new();
    let mut i: usize = 0;
    while i < texts.len()
        invariant
            i <= texts.len(),
            out@ == texts@.take(i as int),
        decreases texts.len() - i,
    {
        out.push(texts[i].clone());
        assert(out@ == texts@.take(i + 1));
        i += 1;
    }
    assert(texts@.take(texts.len() as int) == texts@);
    out
}

/// Writes `parts` one after another with `d` between them.
pub fn join_text(parts: &[String], d: char) -> (out: String)
    ensures
        out@ == join(views(parts@), d),
{
    let mut out = String::new();
    let mut i: usize = 0;
    while i < parts.len()
        invariant
            i <= parts.len(),
            out@ == join(views(parts@).take(i as int), d),
        decreases parts.len() - i,
    {
        let ghost done = views(parts@).take(i as int);
        let ghost next = views(parts@).take(i + 1);
        assert(next.drop_last() == done);
        assert(next.last() == parts@[i as int]@);
        if i > 0 {
            push_char(&mut out, d);
        }
        out.append(parts[i].as_str());
        assert(out@ == join(next, d));
        i += 1;
    }
    assert(views(parts@).take(parts.len() as int) == views(parts@));
    out
}

} // verus!
