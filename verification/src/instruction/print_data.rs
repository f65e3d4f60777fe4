use crate::assoc::{distinct_keys, lemma_absent, lemma_present, lemma_push, lemma_replace, to_map};
use vstd::prelude::*;
use vstd::string::*;

verus! {

/// The entries of a list of replacements, each token and value by its
/// characters.
pub open spec fn entry_views(entries: Seq<(String, String)>) -> Seq<(Seq<char>, Seq<char>)> {
    Seq::new(entries.len(), |i: int| (entries[i].0@, entries[i].1@))
}

/// The values that one print job puts in the place of the tokens of a
/// template. Its view is the map from each token to its value.
#[derive(Debug)]
pub struct PrintData {
    replacements: Vec<(String, String)>,
}

/// Collects the replacements of a [`PrintData`].
#[derive(Debug)]
pub struct PrintDataBuilder {
    replacements: Vec<(String, String)>,
}

impl View for PrintData {
    type V = Map<Seq<char>, Seq<char>>;

    closed spec fn view(&self) -> Map<Seq<char>, Seq<char>> {
        to_map(entry_views(self.replacements@))
    }
}

impl View for PrintDataBuilder {
    type V = Map<Seq<char>, Seq<char>>;

    closed spec fn view(&self) -> Map<Seq<char>, Seq<char>> {
        to_map(entry_views(self.replacements@))
    }
}

impl PrintDataBuilder {
    #[verifier::type_invariant]
    spec fn inv(&self) -> bool {
        distinct_keys(entry_views(self.replacements@))
    }

    /// Sets the value that replaces `token`. A value given earlier for the
    /// same token is overridden.
    pub fn replacement(self, token: &str, value: &str) -> (builder: PrintDataBuilder)
        ensures
            builder@ == self@.insert(token@, value@),
    {
        proof {
            use_type_invariant(&self);
        }
        let PrintDataBuilder { replacements } = self;
        let mut replacements = replacements;
        let token = String::from_str(token);
        let value = String::from_str(value);
        let ghost before = entry_views(replacements@);
        let mut i: usize = 0;
        while i < replacements.len() && replacements[i].0 != token
            invariant
                i <= replacements.len(),
                entry_views(replacements@) == before,
                forall|k: int| 0 <= k < i ==> (#[trigger] before[k]).0 != token@,
            decreases replacements.len() - i,
        {
            assert(before[i as int].0 == replacements@[i as int].0@);
            i += 1;
        }
        if i < replacements.len() {
            assert(before[i as int].0 == replacements@[i as int].0@);
            proof {
                lemma_replace(before, i as int, token@, value@);
            }
            replacements.set(i, (token, value));
            assert(entry_views(replacements@) =~= before.update(i as int, (token@, value@)));
        } else {
            proof {
                lemma_push(before, token@, value@);
            }
            replacements.push((token, value));
            assert(entry_views(replacements@) =~= before.push((token@, value@)));
        }
        PrintDataBuilder { replacements }
    }

    /// The replacements collected so far, as print data.
    pub fn build(self) -> (data: PrintData)
        ensures
            data@ == self@,
    {
        proof {
            use_type_invariant(&self);
        }
        let PrintDataBuilder { replacements } = self;
        PrintData { replacements }
    }
}

impl PrintData {
    #[verifier::type_invariant]
    spec fn inv(&self) -> bool {
        distinct_keys(entry_views(self.replacements@))
    }

    /// Starts print data that replaces nothing.
    pub fn builder() -> (builder: PrintDataBuilder)
        ensures
            builder@ == Map::<Seq<char>, Seq<char>>::empty(),
    {
        let replacements: Vec<(String, String)> = Vec::new();
        assert(entry_views(replacements@) =~= Seq::<(Seq<char>, Seq<char>)>::empty());
        PrintDataBuilder { replacements }
    }

    /// The value that replaces `token`, if the data holds one.
    pub fn get(&self, token: &String) -> (value: Option<&String>)
        ensures
            match value {
                Some(v) => self@.contains_key(token@) && v@ == self@[token@],
                None => !self@.contains_key(token@),
            },
    {
        proof {
            use_type_invariant(self);
        }
        let ghost entries = entry_views(self.replacements@);
        let mut i: usize = 0;
        while i < self.replacements.len()
            invariant
                i <= self.replacements.len(),
                entries == entry_views(self.replacements@),
                distinct_keys(entries),
                forall|k: int| 0 <= k < i ==> (#[trigger] entries[k]).0 != token@,
            decreases self.replacements.len() - i,
        {
            assert(entries[i as int] == (self.replacements@[i as int].0@, self.replacements@[i as int].1@));
            if self.replacements[i].0 == *token {
                proof {
                    lemma_present(entries, i as int);
                }
                return Some(&self.replacements[i].1);
            }
            i += 1;
        }
        proof {
            lemma_absent(entries, token@);
        }
        None
    }

    /// How many tokens the data has a value for.
    pub fn len(&self) -> (n: usize)
        ensures
            n == self@.dom().len(),
            self@.dom().finite(),
    {
        proof {
            use_type_invariant(self);
            lemma_size(entry_views(self.replacements@));
        }
        self.replacements.len()
    }
}

/// A list in which no key occurs twice has as many entries as its map has
/// keys.
proof fn lemma_size<K, V>(entries: Seq<(K, V)>)
    requires
        distinct_keys(entries),
    ensures
        to_map(entries).dom().finite(),
        to_map(entries).dom().len() == entries.len(),
    decreases entries.len(),
{
    if entries.len() > 0 {
        let front = entries.drop_last();
        lemma_size(front);
        assert forall|i: int| 0 <= i < front.len() implies (#[trigger] front[i]).0
            != entries.last().0 by {
            assert(front[i] == entries[i]);
        }
        lemma_absent(front, entries.last().0);
    }
}

} // verus!
