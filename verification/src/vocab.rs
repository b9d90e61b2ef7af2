//! Vocabularies: the two-way mapping between tokens and their numbers.

use std::collections::HashMap;
use vstd::hash_map::StringHashMap;
use vstd::prelude::*;
use vstd::string::*;

verus! {

broadcast use {vstd::std_specs::hash::group_hash_axioms, vstd::hash_map::group_hash_map_axioms};

/// The error type of the JSON parser.
#[verifier::external_type_specification]
#[verifier::external_body]
pub struct ExJsonError(serde_json::Error);

/// The error of loading a file of a model.
#[derive(Debug)]
pub enum LoadError {
    /// The vocabulary is no JSON object from tokens to numbers.
    Vocab(serde_json::Error),
    /// The configuration is no JSON.
    ConfigSyntax(serde_json::Error),
    /// The configuration lacks something or holds something wrong.
    Config(serde_json::Error),
    /// The configuration describes a network that cannot be run: one without attention heads,
    /// without width, with gated inner layers that cannot be halved or with more layers than
    /// fit into memory.
    Network,
    /// The weights do not fit the configuration, or are none at all.
    Weights(candle_core::Error),
}

/// What `serde_json::from_str` makes of a text that is to hold an object whose fields are
/// 32-bit numbers; nothing if it refuses the text.
pub uninterp spec fn number_fields(raw: Seq<char>) -> Option<Map<Seq<char>, u32>>;

/// The map with the given entries.
pub open spec fn map_of(entries: Seq<(String, u32)>) -> Map<Seq<char>, u32>
    decreases entries.len(),
{
    if entries.len() == 0 {
        Map::empty()
    } else {
        map_of(entries.drop_last()).insert(entries.last().0@, entries.last().1)
    }
}

/// Whether no two entries have the same key.
pub open spec fn distinct_keys(entries: Seq<(String, u32)>) -> bool {
    forall|i: int, j: int|
        0 <= i < j < entries.len() ==> (#[trigger] entries[i]).0@ != (#[trigger] entries[j]).0@
}

/// Calls `serde_json::from_str` for a `HashMap<String, u32>` and hands out its entries, each
/// key once, in no particular order. What the text stands for is named [`number_fields`].
#[verifier::external_body]
fn read_entries(raw: &str) -> (r: Result<Vec<(String, u32)>, serde_json::Error>)
    ensures
        match r {
            Ok(entries) => {
                &&& number_fields(raw@) == Some(map_of(entries@))
                &&& distinct_keys(entries@)
            },
            Err(_) => number_fields(raw@) is None,
        },
{
    let map = serde_json::from_str::<HashMap<String, u32>>(raw)?;
    Ok(map.into_iter().collect())
}

/// A vocabulary. Its view is the number of each token.
pub struct Vocab {
    token_to_id: StringHashMap<u32>,
    id_to_token: HashMap<u32, String>,
    max_token_len: usize,
}

impl View for Vocab {
    type V = Map<Seq<char>, u32>;

    closed spec fn view(&self) -> Map<Seq<char>, u32> {
        self.token_to_id@
    }
}

/// Whether `back` leads from each number of `ids`, and from no other, to a token that has it.
spec fn inverse(ids: Map<Seq<char>, u32>, back: Map<u32, String>) -> bool {
    &&& forall|t: Seq<char>| #[trigger] ids.contains_key(t) ==> back.contains_key(ids[t])
    &&& forall|id: u32| #[trigger]
        back.contains_key(id) ==> ids.contains_key(back[id]@) && ids[back[id]@] == id
}

/// Whether no two tokens share a number.
pub open spec fn distinct_numbers(ids: Map<Seq<char>, u32>) -> bool {
    forall|t: Seq<char>, u: Seq<char>|
        #[trigger] ids.contains_key(t) && #[trigger] ids.contains_key(u) && ids[t] == ids[u] ==> t
            == u
}

/// Whether the numbers of a vocabulary lead back to their tokens.
pub open spec fn faithful(vocab: Vocab) -> bool {
    forall|t: Seq<char>| #[trigger]
        vocab@.contains_key(t) ==> vocab.token_of(vocab@[t]) == Some(t)
}

impl Vocab {
    #[verifier::type_invariant]
    spec fn wf(self) -> bool {
        &&& inverse(self.token_to_id@, self.id_to_token@)
        &&& forall|t: Seq<char>| #[trigger]
            self.token_to_id@.contains_key(t) ==> t.len() <= self.max_token_len
        &&& self.token_to_id@.dom() == Set::<Seq<char>>::empty() ==> self.max_token_len == 16
        &&& self.token_to_id@.dom() != Set::<Seq<char>>::empty() ==> exists|t: Seq<char>| #[trigger]
            self.token_to_id@.contains_key(t) && t.len() == self.max_token_len
    }

    /// The token that a number stands for. Where several tokens have the same number it is one
    /// of them; which one may differ from vocabulary to vocabulary.
    pub closed spec fn token_of(&self, id: u32) -> Option<Seq<char>> {
        if self.id_to_token@.contains_key(id) {
            Some(self.id_to_token@[id]@)
        } else {
            None
        }
    }

    fn build(entries: Vec<(String, u32)>) -> (r: Vocab)
        requires
            distinct_keys(entries@),
        ensures
            r@ == map_of(entries@),
    {
        let mut token_to_id = StringHashMap::<u32>::new();
        let mut id_to_token = HashMap::<u32, String>::new();
        let mut max_token_len: usize = 0;
        let n: usize = entries.len();
        for i in 0..n
            invariant
                n == entries@.len(),
                distinct_keys(entries@),
                token_to_id@ == map_of(entries@.take(i as int)),
                forall|t: Seq<char>| #[trigger]
                    token_to_id@.contains_key(t) ==> exists|j: int|
                        0 <= j < i && (#[trigger] entries@[j]).0@ == t,
                inverse(token_to_id@, id_to_token@),
                forall|t: Seq<char>| #[trigger]
                    token_to_id@.contains_key(t) ==> t.len() <= max_token_len,
                i > 0 ==> exists|t: Seq<char>| #[trigger]
                    token_to_id@.contains_key(t) && t.len() == max_token_len,
                i == 0 ==> max_token_len == 0,
        {
            let ghost ids_before = token_to_id@;
            let ghost back_before = id_to_token@;
            let token = entries[i].0.clone();
            let id: u32 = entries[i].1;
            let len: usize = token.as_str().unicode_len();
            let ghost t = token@;
            assert(entries@.take(i + 1).drop_last() =~= entries@.take(i as int));
            assert(!ids_before.contains_key(t));
            if len > max_token_len {
                max_token_len = len;
            }
            token_to_id.insert(token.clone(), id);
            id_to_token.insert(id, token);
            assert(entries@[i as int].0@ == t);
            assert(token_to_id@.contains_key(t));
            assert forall|u: Seq<char>| #[trigger] token_to_id@.contains_key(u) implies exists|j: int|
                0 <= j < i + 1 && (#[trigger] entries@[j]).0@ == u by {
                if u != t {
                    assert(ids_before.contains_key(u));
                }
            }
            assert forall|u: Seq<char>| #[trigger] token_to_id@.contains_key(u) implies u.len()
                <= max_token_len by {
                if u != t {
                    assert(ids_before.contains_key(u));
                }
            }
            assert(exists|u: Seq<char>| #[trigger]
                token_to_id@.contains_key(u) && u.len() == max_token_len) by {
                if max_token_len != len {
                    let u = choose|u: Seq<char>| #[trigger]
                        ids_before.contains_key(u) && u.len() == max_token_len;
                    assert(token_to_id@.contains_key(u));
                }
            }
            assert forall|u: Seq<char>| #[trigger]
                token_to_id@.contains_key(u) implies id_to_token@.contains_key(token_to_id@[u]) by {
                if u != t {
                    assert(ids_before.contains_key(u));
                }
            }
        }
        assert(entries@.take(n as int) =~= entries@);
        if n == 0 {
            max_token_len = 16;
            assert(token_to_id@.dom() =~= Set::<Seq<char>>::empty());
        }
        Vocab { token_to_id, id_to_token, max_token_len }
    }

    /// Reads a vocabulary: a JSON object with the number of each token. If no two tokens share a
    /// number, the numbers lead back to their tokens.
    pub fn parse(raw: &str) -> (r: Result<Vocab, LoadError>)
        ensures
            match r {
                Ok(vocab) => {
                    &&& number_fields(raw@) == Some(vocab@)
                    &&& distinct_numbers(vocab@) ==> faithful(vocab)
                },
                Err(e) => number_fields(raw@) is None && e is Vocab,
            },
    {
        match read_entries(raw) {
            Ok(entries) => {
                let vocab = Vocab::build(entries);
                proof {
                    use_type_invariant(&vocab);
                    if distinct_numbers(vocab@) {
                        assert forall|t: Seq<char>| #[trigger]
                            vocab@.contains_key(t) implies vocab.token_of(vocab@[t]) == Some(t) by {
                            let back = vocab.id_to_token@[vocab@[t]]@;
                            assert(vocab.id_to_token@.contains_key(vocab@[t]));
                            assert(vocab@.contains_key(back));
                        }
                    }
                }
                Ok(vocab)
            },
            Err(e) => Err(LoadError::Vocab(e)),
        }
    }

    /// The number of a token.
    pub fn id(&self, token: &str) -> (r: Option<u32>)
        ensures
            r == (if self@.contains_key(token@) {
                Some(self@[token@])
            } else {
                None::<u32>
            }),
    {
        match self.token_to_id.get(token) {
            Some(id) => Some(*id),
            None => None,
        }
    }

    /// The token that a number stands for: there is one exactly for the numbers of tokens, and
    /// its number is the given one.
    pub fn token(&self, id: u32) -> (r: Option<&String>)
        ensures
            match r {
                Some(token) => self.token_of(id) == Some(token@),
                None => self.token_of(id) is None,
            },
            self.token_of(id) is Some <==> exists|t: Seq<char>| #[trigger]
                self@.contains_key(t) && self@[t] == id,
            self.token_of(id) matches Some(t) ==> self@.contains_key(t) && self@[t] == id,
    {
        proof {
            use_type_invariant(self);
            if self.id_to_token@.contains_key(id) {
                assert(self@.contains_key(self.id_to_token@[id]@));
            }
        }
        self.id_to_token.get(&id)
    }

    /// The length of the longest token; 16 if there is no token at all.
    pub fn max_token_len(&self) -> (r: usize)
        ensures
            forall|t: Seq<char>| #[trigger] self@.contains_key(t) ==> t.len() <= r,
            if self@.dom() == Set::<Seq<char>>::empty() {
                r == 16
            } else {
                exists|t: Seq<char>| #[trigger] self@.contains_key(t) && t.len() == r
            },
    {
        proof {
            use_type_invariant(self);
            let t = choose|t: Seq<char>| #[trigger]
                self.token_to_id@.contains_key(t) && t.len() == self.max_token_len;
            assert(self@.contains_key(t) == self.token_to_id@.contains_key(t));
        }
        self.max_token_len
    }
}

/// The map of some entries with different keys has exactly these entries.
pub proof fn entries_are_mapped(entries: Seq<(String, u32)>, token: Seq<char>)
    requires
        distinct_keys(entries),
    ensures
        map_of(entries).contains_key(token) <==> exists|i: int|
            0 <= i < entries.len() && (#[trigger] entries[i]).0@ == token,
        forall|i: int|
            0 <= i < entries.len() ==> map_of(entries)[(#[trigger] entries[i]).0@] == entries[i].1,
    decreases entries.len(),
{
    if entries.len() > 0 {
        let init = entries.drop_last();
        assert(distinct_keys(init)) by {
            assert forall|i: int, j: int| 0 <= i < j < init.len() implies (#[trigger] init[i]).0@
                != (#[trigger] init[j]).0@ by {
                assert(entries[i].0@ != entries[j].0@);
            }
        }
        entries_are_mapped(init, token);
        let last = entries.len() - 1;
        assert forall|i: int| 0 <= i < entries.len() implies map_of(entries)[(
        #[trigger] entries[i]).0@] == entries[i].1 by {
            if i < last {
                assert(init[i] == entries[i]);
                assert(entries[i].0@ != entries[last].0@);
            }
        }
        if map_of(entries).contains_key(token) {
            if token == entries[last].0@ {
            } else {
                let i = choose|i: int| 0 <= i < init.len() && (#[trigger] init[i]).0@ == token;
                assert(entries[i].0@ == token);
            }
        }
        if exists|i: int| 0 <= i < entries.len() && (#[trigger] entries[i]).0@ == token {
            let i = choose|i: int| 0 <= i < entries.len() && (#[trigger] entries[i]).0@ == token;
            if i < last {
                assert(init[i].0@ == token);
            }
        }
    }
}

} // verus!
