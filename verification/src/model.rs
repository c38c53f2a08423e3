//! The mathematical model of an atom table, and the laws of interning.
//!
//! A table is modelled by the sequence of the distinct strings it holds, in
//! the order in which they were first interned. The identifier of a string is
//! its position in that sequence.

use vstd::prelude::*;
use crate::atom::AtomId;

verus! {

/// The strings of a table after `s` has been interned into `names`.
pub open spec fn interned(names: Seq<Seq<char>>, s: Seq<char>) -> Seq<Seq<char>> {
    if names.contains(s) {
        names
    } else {
        names.push(s)
    }
}

/// The raw identifier of `s` in `names`: its position. Meaningful where
/// `names` contains `s`.
pub open spec fn atom_of(names: Seq<Seq<char>>, s: Seq<char>) -> int {
    names.index_of(s)
}

/// What a query for `s` answers on a table that holds `names`: the identifier
/// of `s`, or nothing where `s` was never interned.
pub open spec fn lookup_in(names: Seq<Seq<char>>, s: Seq<char>) -> Option<AtomId> {
    if names.contains(s) {
        Some(AtomId(atom_of(names, s) as u64))
    } else {
        None
    }
}

/// The strings of a table after each of `texts` has been interned into
/// `names`, first to last.
pub open spec fn interned_all(names: Seq<Seq<char>>, texts: Seq<Seq<char>>) -> Seq<Seq<char>>
    decreases texts.len(),
{
    if texts.len() == 0 {
        names
    } else {
        interned(interned_all(names, texts.drop_last()), texts.last())
    }
}

/// In a duplicate-free sequence the position of an element is the only index
/// at which it occurs.
pub proof fn lemma_atom_of_unique(names: Seq<Seq<char>>, s: Seq<char>, i: int)
    requires
        names.no_duplicates(),
        0 <= i < names.len(),
        names[i] == s,
    ensures
        names.contains(s),
        atom_of(names, s) == i,
{
    let j = names.index_of(s);
    assert(0 <= j < names.len() && names[j] == s);
}

/// Interning keeps the strings of a table distinct.
pub proof fn lemma_interned_distinct(names: Seq<Seq<char>>, s: Seq<char>)
    requires
        names.no_duplicates(),
    ensures
        interned(names, s).no_duplicates(),
        interned(names, s).contains(s),
{
    let after = interned(names, s);
    if names.contains(s) {
    } else {
        assert(after[names.len() as int] == s);
        assert forall|i: int, j: int| 0 <= i < after.len() && 0 <= j < after.len() && i != j implies after[i]
            != after[j] by {
            if i < names.len() && j < names.len() {
            } else if i < names.len() {
                assert(names.contains(after[i]));
            } else {
                assert(names.contains(after[j]));
            }
        }
    }
}

/// Interning never changes the identifier of a string that the table holds
/// already.
pub proof fn lemma_interned_keeps_atoms(names: Seq<Seq<char>>, s: Seq<char>, t: Seq<char>)
    requires
        names.no_duplicates(),
        names.contains(t),
    ensures
        interned(names, s).contains(t),
        atom_of(interned(names, s), t) == atom_of(names, t),
{
    let i = names.index_of(t);
    lemma_interned_distinct(names, s);
    assert(interned(names, s)[i] == t);
    lemma_atom_of_unique(interned(names, s), t, i);
}

/// Bijection, from identifier to string and back: in a table of distinct
/// strings, a query for the string stored at position `i` answers `i`.
pub proof fn lemma_lookup_of_stored(names: Seq<Seq<char>>, i: int)
    requires
        names.no_duplicates(),
        0 <= i < names.len(),
        names.len() <= u64::MAX,
    ensures
        lookup_in(names, names[i]) == Some(AtomId(i as u64)),
{
    lemma_atom_of_unique(names, names[i], i);
}

/// Bijection, from string to identifier and back: where a query for `s`
/// answers an identifier, the string stored at that identifier is `s`.
pub proof fn lemma_stored_at_lookup(names: Seq<Seq<char>>, s: Seq<char>)
    requires
        names.contains(s),
    ensures
        0 <= atom_of(names, s) < names.len(),
        names[atom_of(names, s)] == s,
{
    let j = names.index_of(s);
    assert(0 <= j < names.len() && names[j] == s);
}

/// Identifiers count up from zero: a string that the table does not hold yet
/// gets the number of strings held so far.
pub proof fn lemma_fresh_atom(names: Seq<Seq<char>>, s: Seq<char>)
    requires
        names.no_duplicates(),
        !names.contains(s),
    ensures
        atom_of(interned(names, s), s) == names.len(),
{
    lemma_interned_distinct(names, s);
    assert(interned(names, s)[names.len() as int] == s);
    lemma_atom_of_unique(interned(names, s), s, names.len() as int);
}

/// Idempotence: interning a string a second time changes nothing, so both
/// calls give the same identifier.
pub proof fn lemma_intern_idempotent(names: Seq<Seq<char>>, s: Seq<char>)
    ensures
        interned(interned(names, s), s) == interned(names, s),
        atom_of(interned(interned(names, s), s), s) == atom_of(interned(names, s), s),
{
    if !names.contains(s) {
        assert(names.push(s)[names.len() as int] == s);
    }
}

/// Injectivity: two different strings, interned one after the other, get
/// different identifiers.
pub proof fn lemma_intern_injective(names: Seq<Seq<char>>, s1: Seq<char>, s2: Seq<char>)
    requires
        names.no_duplicates(),
        s1 != s2,
    ensures
        atom_of(interned(names, s1), s1) != atom_of(interned(interned(names, s1), s2), s2),
        atom_of(interned(interned(names, s1), s2), s1) == atom_of(interned(names, s1), s1),
{
    let first = interned(names, s1);
    lemma_interned_distinct(names, s1);
    let second = interned(first, s2);
    lemma_interned_distinct(first, s2);
    lemma_interned_keeps_atoms(first, s2, s1);
    let a = first.index_of(s1);
    let b = second.index_of(s2);
    assert(0 <= a < first.len() && first[a] == s1);
    assert(0 <= b < second.len() && second[b] == s2);
    assert(second[a] == s1);
}

/// Round trip: the string found at the identifier that interning returns is
/// the string that was interned.
pub proof fn lemma_intern_round_trip(names: Seq<Seq<char>>, s: Seq<char>)
    ensures
        0 <= atom_of(interned(names, s), s) < interned(names, s).len(),
        interned(names, s)[atom_of(interned(names, s), s)] == s,
{
    let after = interned(names, s);
    if !names.contains(s) {
        assert(after[names.len() as int] == s);
    }
    assert(after.contains(s));
    let j = after.index_of(s);
    assert(0 <= j < after.len() && after[j] == s);
}

/// Cardinality: a string that the table does not hold yet adds one to its
/// length, and one that it holds adds nothing.
pub proof fn lemma_intern_cardinality(names: Seq<Seq<char>>, s: Seq<char>)
    ensures
        names.contains(s) ==> interned(names, s).len() == names.len(),
        !names.contains(s) ==> interned(names, s).len() == names.len() + 1,
{
}

/// A batch never shrinks a table and adds at most one string for each of its
/// texts.
pub proof fn lemma_interned_all_len(names: Seq<Seq<char>>, texts: Seq<Seq<char>>)
    ensures
        names.len() <= interned_all(names, texts).len() <= names.len() + texts.len(),
    decreases texts.len(),
{
    if texts.len() > 0 {
        lemma_interned_all_len(names, texts.drop_last());
    }
}

/// The first `i` texts of a batch leave no more strings than the whole batch.
pub proof fn lemma_interned_all_prefix_len(names: Seq<Seq<char>>, texts: Seq<Seq<char>>, i: int)
    requires
        0 <= i <= texts.len(),
    ensures
        interned_all(names, texts.take(i)).len() <= interned_all(names, texts).len(),
    decreases texts.len(),
{
    if i == texts.len() {
        assert(texts.take(i) =~= texts);
    } else {
        lemma_interned_all_prefix_len(names, texts.drop_last(), i);
        assert(texts.drop_last().take(i) =~= texts.take(i));
    }
}

/// Cardinality: a batch of pairwise distinct texts, none of which the table
/// holds, is appended to the table as it stands, so the table grows by the
/// number of texts.
pub proof fn lemma_interned_all_of_new(names: Seq<Seq<char>>, texts: Seq<Seq<char>>)
    requires
        texts.no_duplicates(),
        forall|i: int| 0 <= i < texts.len() ==> !names.contains(#[trigger] texts[i]),
    ensures
        interned_all(names, texts) == names + texts,
        interned_all(names, texts).len() == names.len() + texts.len(),
    decreases texts.len(),
{
    if texts.len() == 0 {
        assert(names + texts =~= names);
    } else {
        let head = texts.drop_last();
        let last = texts.last();
        assert forall|i: int| 0 <= i < head.len() implies !names.contains(#[trigger] head[i]) by {
            assert(head[i] == texts[i]);
        }
        lemma_interned_all_of_new(names, head);
        let before = names + head;
        if before.contains(last) {
            let k = before.index_of(last);
            assert(0 <= k < before.len() && before[k] == last);
            if k < names.len() {
                assert(names[k] == last);
                assert(names.contains(texts[texts.len() - 1]));
            } else {
                assert(head[k - names.len()] == last);
                assert(texts[k - names.len()] == texts[texts.len() - 1]);
            }
        }
        assert(before.push(last) =~= names + texts);
    }
}

/// Cardinality: re-interning texts that the table holds already changes
/// nothing.
pub proof fn lemma_interned_all_of_held(names: Seq<Seq<char>>, texts: Seq<Seq<char>>)
    requires
        forall|i: int| 0 <= i < texts.len() ==> names.contains(#[trigger] texts[i]),
    ensures
        interned_all(names, texts) == names,
    decreases texts.len(),
{
    if texts.len() > 0 {
        let head = texts.drop_last();
        assert forall|i: int| 0 <= i < head.len() implies names.contains(#[trigger] head[i]) by {
            assert(head[i] == texts[i]);
        }
        lemma_interned_all_of_held(names, head);
        assert(names.contains(texts[texts.len() - 1]));
    }
}

/// Cardinality of a batch: interning pairwise distinct texts into the empty
/// table leaves a table that holds exactly those texts, in their order, and
/// so as many strings as there are texts.
pub proof fn lemma_interned_all_of_distinct(texts: Seq<Seq<char>>)
    requires
        texts.no_duplicates(),
    ensures
        interned_all(Seq::empty(), texts) == texts,
        interned_all(Seq::empty(), texts).len() == texts.len(),
    decreases texts.len(),
{
    if texts.len() == 0 {
        assert(texts =~= Seq::empty());
    } else {
        let head = texts.drop_last();
        lemma_interned_all_of_distinct(head);
        if head.contains(texts.last()) {
            let i = head.index_of(texts.last());
            assert(texts[i] == texts[texts.len() - 1]);
        }
        assert(head.push(texts.last()) =~= texts);
    }
}

} // verus!
