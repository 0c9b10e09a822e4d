//! The INFO keys that a set of annotations uses, without repetition and in
//! lexicographic order.
//!
//! An annotation is a list of `KEY` or `KEY=VALUE` tokens with `;` between
//! them. The key of a token is what stands before its first `=`.

use vstd::prelude::*;
use crate::text::{chars_of, lemma_split_nonempty, split, split_text, views};

verus! {

/// Whether what `a` holds from index `i` on stands before what `b` holds from
/// index `i` on, in lexicographic order. Characters are ordered by code
/// point, and a text stands before each of its proper extensions.
pub open spec fn precedes_from(a: Seq<char>, b: Seq<char>, i: int) -> bool
    decreases a.len() - i,
{
    if i >= b.len() {
        false
    } else if i >= a.len() {
        true
    } else if a[i] != b[i] {
        a[i] < b[i]
    } else {
        precedes_from(a, b, i + 1)
    }
}

/// Whether `a` stands before `b` in lexicographic order.
pub open spec fn precedes(a: Seq<char>, b: Seq<char>) -> bool {
    precedes_from(a, b, 0)
}

/// Whether each text of `keys` stands before all that follow it.
pub open spec fn strictly_sorted(keys: Seq<Seq<char>>) -> bool {
    forall|i: int, j: int| 0 <= i < j < keys.len() ==> precedes(#[trigger] keys[i], #[trigger] keys[j])
}

/// The tokens of an annotation.
pub open spec fn tokens_of(info: Seq<char>) -> Seq<Seq<char>> {
    split(info, ';')
}

/// The key of a token: what stands before its first `=`, or all of it.
pub open spec fn key_of(token: Seq<char>) -> Seq<char> {
    split(token, '=')[0]
}

/// The keys of a list of tokens.
pub open spec fn keys_of_tokens(tokens: Seq<Seq<char>>) -> Set<Seq<char>> {
    Set::new(|k: Seq<char>| exists|j: int| 0 <= j < tokens.len() && key_of(#[trigger] tokens[j]) == k)
}

/// The keys that the annotations `infos` use.
pub open spec fn key_set(infos: Seq<Seq<char>>) -> Set<Seq<char>> {
    Set::new(
        |k: Seq<char>|
            exists|i: int|
                0 <= i < infos.len() && keys_of_tokens(tokens_of(#[trigger] infos[i])).contains(k),
    )
}

/// Whether `keys` lists the keys that `infos` use, each once and in
/// lexicographic order.
pub open spec fn declares(keys: Seq<Seq<char>>, infos: Seq<Seq<char>>) -> bool {
    strictly_sorted(keys) && keys.to_set() == key_set(infos)
}

/// No text stands before itself.
pub proof fn lemma_precedes_irreflexive(a: Seq<char>, i: int)
    requires
        0 <= i,
    ensures
        !precedes_from(a, a, i),
    decreases a.len() - i,
{
    if i < a.len() {
        lemma_precedes_irreflexive(a, i + 1);
    }
}

/// What stands before a text stands before all that the text stands before.
pub proof fn lemma_precedes_transitive(a: Seq<char>, b: Seq<char>, c: Seq<char>, i: int)
    requires
        0 <= i,
        precedes_from(a, b, i),
        precedes_from(b, c, i),
    ensures
        precedes_from(a, c, i),
    decreases a.len() - i,
{
    if i < a.len() && i < b.len() && i < c.len() && a[i] == b[i] && b[i] == c[i] {
        lemma_precedes_transitive(a, b, c, i + 1);
    }
}

/// Two lists that hold the same texts, each in lexicographic order and
/// without repetition, are one list.
pub proof fn lemma_sorted_unique(a: Seq<Seq<char>>, b: Seq<Seq<char>>)
    requires
        strictly_sorted(a),
        strictly_sorted(b),
        a.to_set() == b.to_set(),
    ensures
        a == b,
    decreases a.len(),
{
    if a.len() == 0 {
        if b.len() > 0 {
            assert(b.contains(b[0]));
            assert(b.to_set().contains(b[0]));
            assert(a.to_set().contains(b[0]));
        }
        assert(a =~= b);
    } else {
        assert(a.contains(a[0]));
        assert(a.to_set().contains(a[0]));
        assert(b.contains(a[0]));
        let j = choose|j: int| 0 <= j < b.len() && b[j] == a[0];
        assert(b.contains(b[0]));
        assert(b.to_set().contains(b[0]));
        assert(a.contains(b[0]));
        let i = choose|i: int| 0 <= i < a.len() && a[i] == b[0];
        if j > 0 {
            assert(precedes(b[0], b[j]));
            if i > 0 {
                assert(precedes(a[0], a[i]));
                lemma_precedes_transitive(b[0], a[0], b[0], 0);
            }
            lemma_precedes_irreflexive(b[0], 0);
        }
        assert(a[0] == b[0]);
        let ta = a.skip(1);
        let tb = b.skip(1);
        assert(strictly_sorted(ta)) by {
            assert forall|p: int, q: int| 0 <= p < q < ta.len() implies precedes(
                #[trigger] ta[p],
                #[trigger] ta[q],
            ) by {
                assert(ta[p] == a[p + 1] && ta[q] == a[q + 1]);
            }
        }
        assert(strictly_sorted(tb)) by {
            assert forall|p: int, q: int| 0 <= p < q < tb.len() implies precedes(
                #[trigger] tb[p],
                #[trigger] tb[q],
            ) by {
                assert(tb[p] == b[p + 1] && tb[q] == b[q + 1]);
            }
        }
        assert(ta.to_set() =~= tb.to_set()) by {
            assert forall|k: Seq<char>| ta.contains(k) implies tb.contains(k) by {
                lemma_tail_member(a, b, k);
            }
            assert forall|k: Seq<char>| tb.contains(k) implies ta.contains(k) by {
                lemma_tail_member(b, a, k);
            }
        }
        lemma_sorted_unique(ta, tb);
        assert(a =~= seq![a[0]] + ta);
        assert(b =~= seq![b[0]] + tb);
    }
}

/// Where two sorted lists hold the same texts and start alike, what the
/// first holds behind its start the second holds behind its start.
proof fn lemma_tail_member(a: Seq<Seq<char>>, b: Seq<Seq<char>>, k: Seq<char>)
    requires
        strictly_sorted(a),
        a.len() > 0,
        b.len() > 0,
        a[0] == b[0],
        a.to_set() == b.to_set(),
        a.skip(1).contains(k),
    ensures
        b.skip(1).contains(k),
{
    let p = choose|p: int| 0 <= p < a.skip(1).len() && a.skip(1)[p] == k;
    assert(a[p + 1] == k);
    assert(a.contains(k));
    assert(a.to_set().contains(k));
    assert(b.contains(k));
    let q = choose|q: int| 0 <= q < b.len() && b[q] == k;
    if q == 0 {
        assert(precedes(a[0], a[p + 1]));
        lemma_precedes_irreflexive(k, 0);
    }
    assert(b.skip(1)[q - 1] == k);
}

/// The lists of keys that stand for two collections of annotations with the
/// same members are one list: the order in which annotations are given, and
/// how often one is given, leave the declared keys unchanged.
pub proof fn lemma_declared_keys_ignore_order(
    keys_a: Seq<Seq<char>>,
    infos_a: Seq<Seq<char>>,
    keys_b: Seq<Seq<char>>,
    infos_b: Seq<Seq<char>>,
)
    requires
        declares(keys_a, infos_a),
        declares(keys_b, infos_b),
        infos_a.to_set() == infos_b.to_set(),
    ensures
        keys_a == keys_b,
{
    assert(key_set(infos_a) =~= key_set(infos_b)) by {
        assert forall|k: Seq<char>| key_set(infos_a).contains(k) implies key_set(
            infos_b,
        ).contains(k) by {
            lemma_key_set_member(infos_a, infos_b, k);
        }
        assert forall|k: Seq<char>| key_set(infos_b).contains(k) implies key_set(
            infos_a,
        ).contains(k) by {
            lemma_key_set_member(infos_b, infos_a, k);
        }
    }
    lemma_sorted_unique(keys_a, keys_b);
}

/// A key that some annotation of `a` uses is used in `b`, where `b` holds
/// every annotation of `a`.
proof fn lemma_key_set_member(a: Seq<Seq<char>>, b: Seq<Seq<char>>, k: Seq<char>)
    requires
        a.to_set() == b.to_set(),
        key_set(a).contains(k),
    ensures
        key_set(b).contains(k),
{
    let i = choose|i: int| 0 <= i < a.len() && keys_of_tokens(tokens_of(#[trigger] a[i])).contains(k);
    assert(a.contains(a[i]));
    assert(a.to_set().contains(a[i]));
    assert(b.contains(a[i]));
    let j = choose|j: int| 0 <= j < b.len() && b[j] == a[i];
    assert(keys_of_tokens(tokens_of(b[j])).contains(k));
}

/// Reordering the annotations leaves the declared keys unchanged.
pub proof fn lemma_declared_keys_permutation(
    keys_a: Seq<Seq<char>>,
    infos_a: Seq<Seq<char>>,
    keys_b: Seq<Seq<char>>,
    infos_b: Seq<Seq<char>>,
)
    requires
        declares(keys_a, infos_a),
        declares(keys_b, infos_b),
        infos_a.to_multiset() == infos_b.to_multiset(),
    ensures
        keys_a == keys_b,
{
    infos_a.to_multiset_ensures();
    infos_b.to_multiset_ensures();
    assert forall|info: Seq<char>| infos_a.contains(info) <==> infos_b.contains(info) by {
        assert(infos_a.contains(info) <==> infos_a.to_multiset().count(info) > 0);
        assert(infos_b.contains(info) <==> infos_b.to_multiset().count(info) > 0);
    }
    assert(infos_a.to_set() =~= infos_b.to_set());
    lemma_declared_keys_ignore_order(keys_a, infos_a, keys_b, infos_b);
}

/// How one text stands to another in lexicographic order.
#[derive(Debug, Clone, Copy, PartialEq, Eq)]
pub enum Rank {
    Before,
    Same,
    After,
}

/// Places `a` against `b` in lexicographic order.
pub fn rank(a: &str, b: &str) -> (r: Rank)
    ensures
        r is Before <==> precedes(a@, b@),
        r is Same <==> a@ == b@,
        r is After <==> precedes(b@, a@),
{
    let x = chars_of(a);
    let y = chars_of(b);
    let mut i: usize = 0;
    while i < x.len() && i < y.len() && x[i] == y[i]
        invariant
            i <= x.len(),
            i <= y.len(),
            forall|j: int| 0 <= j < i ==> x@[j] == y@[j],
            precedes(x@, y@) == precedes_from(x@, y@, i as int),
            precedes(y@, x@) == precedes_from(y@, x@, i as int),
        decreases x.len() - i,
    {
        i += 1;
    }
    proof {
        lemma_precedes_irreflexive(x@, 0);
        if precedes(x@, y@) && precedes(y@, x@) {
            lemma_precedes_transitive(x@, y@, x@, 0);
        }
    }
    if i == x.len() && i == y.len() {
        assert(x@ =~= y@);
        Rank::Same
    } else if i == x.len() {
        Rank::Before
    } else if i == y.len() {
        Rank::After
    } else if x[i] < y[i] {
        Rank::Before
    } else {
        Rank::After
    }
}

/// Inserting a view at an index is the view of inserting the string there.
proof fn lemma_views_insert(v: Seq<String>, i: int, s: String)
    requires
        0 <= i <= v.len(),
    ensures
        views(v.insert(i, s)) == views(v).insert(i, s@),
{
    assert(views(v.insert(i, s)) =~= views(v).insert(i, s@));
}

/// The keys of one more token.
proof fn lemma_keys_of_tokens_step(tokens: Seq<Seq<char>>, j: int)
    requires
        0 <= j < tokens.len(),
    ensures
        keys_of_tokens(tokens.take(j + 1)) == keys_of_tokens(tokens.take(j)).insert(
            key_of(tokens[j]),
        ),
{
    let more = tokens.take(j + 1);
    let less = tokens.take(j);
    assert(keys_of_tokens(more) =~= keys_of_tokens(less).insert(key_of(tokens[j]))) by {
        assert forall|k: Seq<char>| keys_of_tokens(more).contains(k) implies keys_of_tokens(
            less,
        ).contains(k) || k == key_of(tokens[j]) by {
            let p = choose|p: int| 0 <= p < more.len() && key_of(#[trigger] more[p]) == k;
            if p < j {
                assert(key_of(less[p]) == k);
            }
        }
        assert forall|k: Seq<char>|
            keys_of_tokens(less).contains(k) || k == key_of(tokens[j]) implies keys_of_tokens(
            more,
        ).contains(k) by {
            if keys_of_tokens(less).contains(k) {
                let p = choose|p: int| 0 <= p < less.len() && key_of(#[trigger] less[p]) == k;
                assert(key_of(more[p]) == k);
            } else {
                assert(key_of(more[j]) == k);
            }
        }
    }
}

/// The keys of one more annotation.
proof fn lemma_key_set_step(infos: Seq<Seq<char>>, i: int)
    requires
        0 <= i < infos.len(),
    ensures
        key_set(infos.take(i + 1)) == key_set(infos.take(i)).union(
            keys_of_tokens(tokens_of(infos[i])),
        ),
{
    let more = infos.take(i + 1);
    let less = infos.take(i);
    let last = keys_of_tokens(tokens_of(infos[i]));
    assert(key_set(more) =~= key_set(less).union(last)) by {
        assert forall|k: Seq<char>| key_set(more).contains(k) implies key_set(less).contains(k)
            || last.contains(k) by {
            let p = choose|p: int|
                0 <= p < more.len() && keys_of_tokens(tokens_of(#[trigger] more[p])).contains(k);
            if p < i {
                assert(keys_of_tokens(tokens_of(less[p])).contains(k));
            }
        }
        assert forall|k: Seq<char>| key_set(less).contains(k) || last.contains(k) implies key_set(
            more,
        ).contains(k) by {
            if key_set(less).contains(k) {
                let p = choose|p: int|
                    0 <= p < less.len() && keys_of_tokens(tokens_of(#[trigger] less[p])).contains(
                        k,
                    );
                assert(keys_of_tokens(tokens_of(more[p])).contains(k));
            } else {
                assert(keys_of_tokens(tokens_of(more[i])).contains(k));
            }
        }
    }
}

/// A set of keys, held in lexicographic order.
#[derive(Debug)]
pub struct KeySet {
    keys: Vec<String>,
}

impl View for KeySet {
    type V = Seq<Seq<char>>;

    /// The keys of the set, in lexicographic order.
    closed spec fn view(&self) -> Seq<Seq<char>> {
        views(self.keys@)
    }
}

impl KeySet {
    #[verifier::type_invariant]
    spec fn is_sorted(&self) -> bool {
        strictly_sorted(views(self.keys@))
    }

    /// The set without keys.
    pub fn new() -> (set: KeySet)
        ensures
            set@ == Seq::<Seq<char>>::empty(),
            strictly_sorted(set@),
    {
        let set = KeySet { keys: Vec::new() };
        assert(set@ =~= Seq::<Seq<char>>::empty());
        set
    }

    /// Puts `key` into the set, unless it is there already.
    pub fn insert(&mut self, key: String)
        ensures
            strictly_sorted(final(self)@),
            final(self)@.to_set() == old(self)@.to_set().insert(key@),
    {
        proof {
            use_type_invariant(&*self);
        }
        let ghost before = views(self.keys@);
        let mut i: usize = 0;
        let mut stop = false;
        while i < self.keys.len() && !stop
            invariant
                i <= self.keys.len(),
                views(self.keys@) == before,
                self.keys@ == old(self).keys@,
                strictly_sorted(before),
                forall|j: int| 0 <= j < i ==> precedes(#[trigger] before[j], key@),
                stop ==> i < self.keys.len() && precedes(key@, before[i as int]),
            decreases self.keys.len() - i + (if stop { 0int } else { 1int }),
        {
            match rank(self.keys[i].as_str(), key.as_str()) {
                Rank::Before => {
                    i += 1;
                },
                Rank::Same => {
                    assert(before[i as int] == key@);
                    assert(before.contains(key@));
                    assert(before.to_set().insert(key@) =~= before.to_set());
                    return ;
                },
                Rank::After => {
                    stop = true;
                },
            }
        }
        proof {
            lemma_views_insert(self.keys@, i as int, key);
            lemma_sorted_insert(before, i as int, key@);
        }
        let mut keys: Vec<String> = Vec::new();
        std::mem::swap(&mut self.keys, &mut keys);
        keys.insert(i, key);
        self.keys = keys;
    }

    /// Puts the keys of the annotation `info` into the set.
    pub fn add_info(&mut self, info: &str)
        ensures
            strictly_sorted(final(self)@),
            final(self)@.to_set() == old(self)@.to_set().union(keys_of_tokens(tokens_of(info@))),
    {
        let ghost before = self@.to_set();
        let tokens = split_text(info, ';');
        let mut j: usize = 0;
        assert(keys_of_tokens(views(tokens@).take(0)) =~= Set::<Seq<char>>::empty());
        assert(before.union(Set::<Seq<char>>::empty()) =~= before);
        proof {
            use_type_invariant(&*self);
        }
        while j < tokens.len()
            invariant
                j <= tokens.len(),
                strictly_sorted(self@),
                self@.to_set() == before.union(keys_of_tokens(views(tokens@).take(j as int))),
            decreases tokens.len() - j,
        {
            let mut pieces = split_text(tokens[j].as_str(), '=');
            proof {
                lemma_split_nonempty(tokens@[j as int]@, '=');
                lemma_keys_of_tokens_step(views(tokens@), j as int);
            }
            let key = pieces.swap_remove(0);
            assert(key@ == key_of(views(tokens@)[j as int]));
            let ghost held = self@.to_set();
            self.insert(key);
            assert(held.insert(key@) =~= before.union(
                keys_of_tokens(views(tokens@).take(j as int)).insert(key@),
            ));
            j += 1;
        }
        assert(views(tokens@).take(tokens.len() as int) == views(tokens@));
    }

    /// The keys of the set, in lexicographic order.
    pub fn into_keys(self) -> (keys: Vec<String>)
        ensures
            views(keys@) == self@,
            strictly_sorted(views(keys@)),
    {
        proof {
            use_type_invariant(&self);
        }
        self.keys
    }
}

/// A sorted list stays sorted where a key is put between those that stand
/// before it and those that stand behind it, and then holds that key
/// besides what it held.
proof fn lemma_sorted_insert(before: Seq<Seq<char>>, i: int, key: Seq<char>)
    requires
        strictly_sorted(before),
        0 <= i <= before.len(),
        forall|j: int| 0 <= j < i ==> precedes(#[trigger] before[j], key),
        i < before.len() ==> precedes(key, before[i]),
    ensures
        strictly_sorted(before.insert(i, key)),
        before.insert(i, key).to_set() == before.to_set().insert(key),
{
    let after = before.insert(i, key);
    assert forall|p: int, q: int| 0 <= p < q < after.len() implies precedes(
        #[trigger] after[p],
        #[trigger] after[q],
    ) by {
        if q == i {
            assert(after[p] == before[p]);
        } else if p == i {
            assert(after[q] == before[q - 1]);
            if q - 1 > i {
                assert(precedes(before[i], before[q - 1]));
                lemma_precedes_transitive(key, before[i], before[q - 1], 0);
            }
        } else {
            let bp = if p < i { p } else { p - 1 };
            let bq = if q < i { q } else { q - 1 };
            assert(after[p] == before[bp] && after[q] == before[bq]);
            assert(precedes(before[bp], before[bq]));
        }
    }
    assert(after.to_set() =~= before.to_set().insert(key)) by {
        assert forall|k: Seq<char>| after.contains(k) implies before.contains(k) || k == key by {
            let p = choose|p: int| 0 <= p < after.len() && after[p] == k;
            if p < i {
                assert(before[p] == k);
            } else if p > i {
                assert(before[p - 1] == k);
            }
        }
        assert forall|k: Seq<char>| before.contains(k) || k == key implies after.contains(k) by {
            if k == key {
                assert(after[i] == k);
            } else {
                let p = choose|p: int| 0 <= p < before.len() && before[p] == k;
                if p < i {
                    assert(after[p] == k);
                } else {
                    assert(after[p + 1] == k);
                }
            }
        }
    }
}

/// The keys that the annotations `infos` use, each once and in lexicographic
/// order.
pub fn info_keys(infos: &[String]) -> (keys: Vec<String>)
    ensures
        declares(views(keys@), views(infos@)),
{
    let mut set = KeySet::new();
    let mut i: usize = 0;
    assert(set@.to_set() =~= key_set(views(infos@).take(0)));
    while i < infos.len()
        invariant
            i <= infos.len(),
            set@.to_set() == key_set(views(infos@).take(i as int)),
        decreases infos.len() - i,
    {
        proof {
            lemma_key_set_step(views(infos@), i as int);
        }
        set.add_info(infos[i].as_str());
        i += 1;
    }
    assert(views(infos@).take(infos.len() as int) == views(infos@));
    set.into_keys()
}

} // verus!
