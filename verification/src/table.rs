//! The atom table: a forward index from strings to identifiers, a reverse
//! index from identifiers to strings, and the counter that issues identifiers.

use vstd::prelude::*;
use crate::atom::AtomId;
use crate::model::{
    atom_of, interned, interned_all, lemma_atom_of_unique, lemma_intern_round_trip,
    lemma_interned_all_len, lemma_interned_all_prefix_len, lemma_lookup_of_stored, lookup_in,
};
use crate::stores::{
    eco_clone, eco_from_str, eco_text, forward_clear, forward_clone, forward_entries,
    forward_get_or_insert, forward_is_empty, forward_len, forward_pin, forward_with_capacity,
    guarded_clone, guarded_key, guarded_text, pinned_entries, pinned_get, reverse_clear, reverse_clone,
    reverse_entries, reverse_get, reverse_insert, reverse_pairs, reverse_with_capacity,
    ForwardIndex, ForwardRef, ReverseIndex, ReverseRef,
};
use crate::unwrap_dbg::UnwrapDbg;

verus! {

/// The texts of a sequence of string slices.
pub open spec fn texts_of(strings: Seq<&str>) -> Seq<Seq<char>> {
    Seq::new(strings.len(), |i: int| strings[i]@)
}

/// Bidirectional string atom table.
///
/// Mutating operations take the table by `&mut`; queries take it by `&`.
#[derive(Debug)]
pub struct AtomTable {
    atom_id_to_str: ReverseIndex,
    str_to_atom_id: ForwardIndex,
    next_atom_id: u64,
}

impl View for AtomTable {
    type V = Seq<Seq<char>>;

    /// The interned strings in the order of their identifiers.
    closed spec fn view(&self) -> Seq<Seq<char>> {
        Seq::new(
            self.next_atom_id as nat,
            |i: int| reverse_entries(self.atom_id_to_str)[i as u64],
        )
    }
}

impl AtomTable {
    /// The two indices are inverses of one another, and the identifiers in use
    /// are exactly those below the counter.
    pub closed spec fn wf(&self) -> bool {
        let fwd = forward_entries(self.str_to_atom_id);
        let rev = reverse_entries(self.atom_id_to_str);
        let n = self.next_atom_id;
        &&& fwd.dom().finite()
        &&& fwd.dom().len() == n
        &&& rev.dom().finite()
        &&& rev.dom().len() == n
        &&& forall|i: u64| #[trigger] rev.contains_key(i) <==> i < n
        &&& forall|i: u64| i < n ==> fwd.contains_key(#[trigger] rev[i]) && fwd[rev[i]] == i
        &&& forall|s: Seq<char>| #[trigger]
            fwd.contains_key(s) ==> fwd[s] < n && rev[fwd[s]] == s
    }

    /// Whether `id` names a string of this table.
    pub open spec fn issued(&self, id: AtomId) -> bool {
        id.0 < self@.len()
    }

    /// Whether `g` is a handle pinned on this table's forward index.
    pub closed spec fn pinned_by(&self, g: ForwardRef<'_, '_>) -> bool {
        pinned_entries(g) == forward_entries(self.str_to_atom_id)
    }

    /// Uniqueness: a well-formed table holds no string twice.
    pub proof fn lemma_distinct(&self)
        requires
            self.wf(),
        ensures
            self@.no_duplicates(),
    {
        let rev = reverse_entries(self.atom_id_to_str);
        assert forall|i: int, j: int|
            0 <= i < self@.len() && 0 <= j < self@.len() && i != j implies self@[i] != self@[j] by {
            assert(self@[i] == rev[i as u64]);
            assert(self@[j] == rev[j as u64]);
        }
    }

    /// Bijection: a query for the string stored under an issued identifier
    /// answers that identifier.
    pub proof fn lemma_bijection(&self, id: AtomId)
        requires
            self.wf(),
            self.issued(id),
        ensures
            lookup_in(self@, self@[id.0 as int]) == Some(id),
    {
        self.lemma_distinct();
        lemma_lookup_of_stored(self@, id.0 as int);
    }

    /// The forward index holds exactly the strings of the view, each under its
    /// position.
    proof fn lemma_forward_agrees(&self, s: Seq<char>)
        requires
            self.wf(),
        ensures
            forward_entries(self.str_to_atom_id).contains_key(s) <==> self@.contains(s),
            self@.contains(s) ==> atom_of(self@, s) == forward_entries(self.str_to_atom_id)[s],
    {
        let fwd = forward_entries(self.str_to_atom_id);
        let rev = reverse_entries(self.atom_id_to_str);
        self.lemma_distinct();
        if fwd.contains_key(s) {
            let i = fwd[s];
            assert(self@[i as int] == rev[i]);
            lemma_atom_of_unique(self@, s, i as int);
        }
        if self@.contains(s) {
            let j = self@.index_of(s);
            assert(self@[j] == rev[j as u64]);
            assert(fwd.contains_key(rev[j as u64]));
        }
    }

    /// Create new atom table.
    pub fn new() -> (table: Self)
        ensures
            table.wf(),
            table@ == Seq::<Seq<char>>::empty(),
    {
        Self::with_capacity(0)
    }

    /// Create with capacity. The capacity sizes both indices; it has no
    /// effect on what the table holds. The forward index reserves eight slots
    /// for every six entries, which bounds the capacity it can take. A
    /// capacity that the machine's memory cannot hold is fatal to the process,
    /// as running out of memory is anywhere.
    pub fn with_capacity(capacity: usize) -> (table: Self)
        requires
            capacity <= usize::MAX / 8,
        ensures
            table.wf(),
            table@ == Seq::<Seq<char>>::empty(),
    {
        let table = AtomTable {
            str_to_atom_id: forward_with_capacity(capacity),
            atom_id_to_str: reverse_with_capacity(capacity),
            next_atom_id: 0,
        };
        assert(table@ =~= Seq::<Seq<char>>::empty());
        table
    }

    /// Intern a string: the identifier it already has, or else the next
    /// unused one, under which the string is then stored. Only a string that
    /// the table does not hold yet needs room in the identifier space.
    pub fn intern(&mut self, s: &str) -> (id: AtomId)
        requires
            old(self).wf(),
            old(self)@.contains(s@) || old(self)@.len() < u64::MAX,
        ensures
            final(self).wf(),
            final(self)@ == interned(old(self)@, s@),
            final(self).issued(id),
            id.0 == atom_of(final(self)@, s@),
            final(self)@[id.0 as int] == s@,
            !old(self)@.contains(s@) ==> id.0 == old(self)@.len(),
    {
        let found = self.try_lookup_id(s);
        self.intern_with_guard(s, found)
    }

    /// Intern a string whose lookup has already been made through a pinned
    /// handle: `found` is what the handle answered for `s`. A handle borrows
    /// the table, so it is released before this call, and its answer is handed
    /// over in its place. An identifier that is handed over must be the one
    /// of `s`; where none is handed over, the cold path asks the forward index
    /// itself.
    pub fn intern_with_guard(&mut self, s: &str, found: Option<AtomId>) -> (id: AtomId)
        requires
            old(self).wf(),
            old(self)@.contains(s@) || old(self)@.len() < u64::MAX,
            found.is_some() ==> found == lookup_in(old(self)@, s@),
        ensures
            final(self).wf(),
            final(self)@ == interned(old(self)@, s@),
            final(self).issued(id),
            id.0 == atom_of(final(self)@, s@),
            final(self)@[id.0 as int] == s@,
            !old(self)@.contains(s@) ==> id.0 == old(self)@.len(),
    {
        let id = match found {
            Some(id) => id,
            None => self.intern_cold(s),
        };
        proof {
            lemma_intern_round_trip(old(self)@, s@);
        }
        id
    }

    /// Intern multiple strings in batch. The identifiers come back in the
    /// order of the strings, one for each. The identifier space must have
    /// room for the strings that are new; that it has room for as many
    /// strings as the batch is long is enough.
    pub fn intern_batch(&mut self, strings: &[&str]) -> (ids: Vec<AtomId>)
        requires
            old(self).wf(),
            old(self)@.len() + strings@.len() <= u64::MAX || interned_all(
                old(self)@,
                texts_of(strings@),
            ).len() <= u64::MAX,
        ensures
            final(self).wf(),
            final(self)@ == interned_all(old(self)@, texts_of(strings@)),
            ids@.len() == strings@.len(),
            forall|j: int|
                0 <= j < ids@.len() ==> final(self).issued(#[trigger] ids@[j]) && ids@[j].0
                    == atom_of(final(self)@, strings@[j]@) && final(self)@[ids@[j].0 as int]
                    == strings@[j]@,
    {
        let ghost start = self@;
        let ghost texts = texts_of(strings@);
        let mut result: Vec<AtomId> = Vec::with_capacity(strings.len());
        let mut i: usize = 0;
        proof {
            assert(texts.take(0) =~= Seq::<Seq<char>>::empty());
            lemma_interned_all_len(start, texts);
        }
        while i < strings.len()
            invariant
                i <= strings@.len(),
                texts == texts_of(strings@),
                interned_all(start, texts).len() <= u64::MAX,
                self.wf(),
                self@ == interned_all(start, texts.take(i as int)),
                result@.len() == i,
                forall|j: int|
                    0 <= j < i ==> (#[trigger] result@[j]).0 < self@.len() && self@[result@[j].0 as int]
                        == texts[j],
            decreases strings@.len() - i,
        {
            let ghost before = self@;
            proof {
                assert(texts[i as int] == strings@[i as int]@);
                assert(texts.take(i + 1).drop_last() =~= texts.take(i as int));
                assert(texts.take(i + 1).last() == texts[i as int]);
                lemma_interned_all_prefix_len(start, texts, i + 1);
            }
            let id = self.intern(strings[i]);
            proof {
                self.lemma_distinct();
                assert forall|j: int| 0 <= j < i implies (#[trigger] result@[j]).0 < self@.len()
                    && self@[result@[j].0 as int] == texts[j] by {
                    assert(before[result@[j].0 as int] == texts[j]);
                }
            }
            result.push(id);
            i += 1;
        }
        proof {
            assert(texts.take(i as int) =~= texts);
            self.lemma_distinct();
            assert forall|j: int| 0 <= j < result@.len() implies self.issued(#[trigger] result@[j])
                && result@[j].0 == atom_of(self@, strings@[j]@) && self@[result@[j].0 as int]
                == strings@[j]@ by {
                assert(texts[j] == strings@[j]@);
                lemma_atom_of_unique(self@, strings@[j]@, result@[j].0 as int);
            }
        }
        result
    }

    /// The cold path: get-or-insert on the forward index. A string that the
    /// index holds keeps its identifier, and nothing is drawn. For a new string
    /// the next identifier is drawn, the string is recorded under it in the
    /// reverse index, and only then is the identifier installed in the
    /// forward index.
    fn intern_cold(&mut self, s: &str) -> (id: AtomId)
        requires
            old(self).wf(),
            old(self)@.contains(s@) || old(self)@.len() < u64::MAX,
        ensures
            final(self).wf(),
            final(self)@ == interned(old(self)@, s@),
            final(self).issued(id),
            id.0 == atom_of(final(self)@, s@),
            final(self)@[id.0 as int] == s@,
            !old(self)@.contains(s@) ==> id.0 == old(self)@.len(),
    {
        proof {
            old(self).lemma_forward_agrees(s@);
            lemma_intern_round_trip(old(self)@, s@);
        }
        let present = self.try_lookup_id(s);
        if let Some(id) = present {
            return id;
        }
        let ghost fwd = forward_entries(self.str_to_atom_id);
        let ghost rev = reverse_entries(self.atom_id_to_str);
        let key = eco_from_str(s);
        let fresh: u64 = self.next_atom_id;
        reverse_insert(&mut self.atom_id_to_str, fresh, eco_clone(&key));
        self.next_atom_id = fresh + 1;
        let installed: u64 = forward_get_or_insert(&mut self.str_to_atom_id, key, fresh);
        proof {
            let fwd2 = forward_entries(self.str_to_atom_id);
            let rev2 = reverse_entries(self.atom_id_to_str);
            assert(fwd2 == fwd.insert(s@, fresh));
            assert(rev2 == rev.insert(fresh, s@));
            assert(!rev.contains_key(fresh));
            assert forall|i: u64| i < fresh + 1 implies fwd2.contains_key(#[trigger] rev2[i])
                && fwd2[rev2[i]] == i by {
                if i < fresh {
                    assert(rev.contains_key(i));
                    assert(fwd.contains_key(rev[i]));
                }
            }
            assert forall|t: Seq<char>| #[trigger] fwd2.contains_key(t) implies fwd2[t] < fresh + 1
                && rev2[fwd2[t]] == t by {
                if t != s@ {
                    assert(fwd.contains_key(t));
                }
            }
            assert(self@ =~= old(self)@.push(s@));
            self.lemma_distinct();
            lemma_atom_of_unique(self@, s@, fresh as int);
        }
        AtomId(installed)
    }

    /// Pin a handle on the forward index for a run of queries. While the
    /// handle lives the table cannot change.
    pub fn pin(&self) -> (g: ForwardRef<'_, '_>)
        ensures
            self.pinned_by(g),
    {
        forward_pin(&self.str_to_atom_id)
    }

    /// Lookup by id and return an owned copy of the string.
    pub fn lookup_owned(&self, id: AtomId) -> (text: ecow::EcoString)
        requires
            self.wf(),
            self.issued(id),
        ensures
            eco_text(text) == self@[id.0 as int],
    {
        let entry = self.lookup_ref(id);
        guarded_clone(&entry)
    }

    /// Lookup by id, returning a borrow that holds a read lock on the entry.
    pub fn lookup_ref(&self, id: AtomId) -> (entry: ReverseRef<'_>)
        requires
            self.wf(),
            self.issued(id),
        ensures
            guarded_key(entry) == id.0,
            guarded_text(entry) == self@[id.0 as int],
    {
        let found = reverse_get(&self.atom_id_to_str, id.0);
        assert(reverse_entries(self.atom_id_to_str).contains_key(id.0));
        found.unwrap_dbg()
    }

    /// Check if a string is already interned without inserting it.
    pub fn try_lookup_id(&self, s: &str) -> (found: Option<AtomId>)
        requires
            self.wf(),
        ensures
            found == lookup_in(self@, s@),
            found.is_some() ==> self.issued(found.unwrap()),
    {
        let g = self.pin();
        self.try_lookup_id_with_guard(s, &g)
    }

    /// Check if a string is already interned, through a handle pinned on this
    /// table.
    pub fn try_lookup_id_with_guard(&self, s: &str, g: &ForwardRef<'_, '_>) -> (found: Option<
        AtomId,
    >)
        requires
            self.wf(),
            self.pinned_by(*g),
        ensures
            found == lookup_in(self@, s@),
            found.is_some() ==> self.issued(found.unwrap()),
    {
        proof {
            self.lemma_forward_agrees(s@);
        }
        match pinned_get(g, s) {
            Some(raw) => Some(AtomId(raw)),
            None => None,
        }
    }

    /// The identifier of a string that is known to be interned.
    pub fn lookup_id(&self, s: &str) -> (id: AtomId)
        requires
            self.wf(),
            self@.contains(s@),
        ensures
            self.issued(id),
            id.0 == atom_of(self@, s@),
    {
        self.try_lookup_id(s).unwrap_dbg()
    }

    /// The identifier of a string that is known to be interned, through a
    /// handle pinned on this table.
    pub fn lookup_id_with_guard(&self, s: &str, g: &ForwardRef<'_, '_>) -> (id: AtomId)
        requires
            self.wf(),
            self.pinned_by(*g),
            self@.contains(s@),
        ensures
            self.issued(id),
            id.0 == atom_of(self@, s@),
    {
        self.try_lookup_id_with_guard(s, g).unwrap_dbg()
    }

    /// Number of interned strings.
    pub fn len(&self) -> (n: usize)
        requires
            self.wf(),
        ensures
            n == self@.len(),
    {
        forward_len(&self.str_to_atom_id)
    }

    /// Whether no string is interned.
    pub fn is_empty(&self) -> (b: bool)
        requires
            self.wf(),
        ensures
            b == (self@.len() == 0),
    {
        forward_is_empty(&self.str_to_atom_id)
    }

    /// Clear all interned strings and restart the identifiers at zero. No
    /// identifier issued before the call names a string afterwards.
    pub fn clear(&mut self)
        ensures
            final(self).wf(),
            final(self)@ == Seq::<Seq<char>>::empty(),
            forall|id: AtomId| !final(self).issued(id),
    {
        forward_clear(&mut self.str_to_atom_id);
        reverse_clear(&mut self.atom_id_to_str);
        self.next_atom_id = 0;
        assert(self@ =~= Seq::<Seq<char>>::empty());
    }

    /// All interned strings with their identifiers: every identifier exactly
    /// once, in no particular order.
    pub fn iter(&self) -> (pairs: Vec<(AtomId, ecow::EcoString)>)
        requires
            self.wf(),
        ensures
            pairs@.len() == self@.len(),
            forall|k: int|
                0 <= k < pairs@.len() ==> self.issued((#[trigger] pairs@[k]).0) && eco_text(
                    pairs@[k].1,
                ) == self@[pairs@[k].0.0 as int],
            forall|k: int, l: int|
                0 <= k < l < pairs@.len() ==> (#[trigger] pairs@[k]).0 != (#[trigger] pairs@[l]).0,
    {
        reverse_pairs(&self.atom_id_to_str)
    }
}

impl Clone for AtomTable {
    /// A table of its own with the same strings under the same identifiers.
    fn clone(&self) -> (copy: Self)
        ensures
            copy@ == self@,
            self.wf() ==> copy.wf(),
    {
        AtomTable {
            str_to_atom_id: forward_clone(&self.str_to_atom_id),
            atom_id_to_str: reverse_clone(&self.atom_id_to_str),
            next_atom_id: self.next_atom_id,
        }
    }
}

impl Default for AtomTable {
    /// The empty table.
    fn default() -> (table: Self)
        ensures
            table.wf(),
            table@ == Seq::<Seq<char>>::empty(),
    {
        Self::new()
    }
}

} // verus!
