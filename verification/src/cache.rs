//! Looking characters up by the text they stand for.
use vstd::prelude::*;
use crate::format::text::string_push;
use crate::glyphs::Character;

verus! {

/// A map from the text of a character to its position, held in a
/// `hashbrown::HashMap`.
#[verifier::external_body]
pub struct CharacterMappings {
    map: hashbrown::HashMap<String, usize>,
}

/// The entries of a [`CharacterMappings`]: each key's text, and its value.
pub uninterp spec fn mapping_entries(m: CharacterMappings) -> Map<Seq<char>, usize>;

/// `hashbrown::HashMap::new`: an empty map.
#[verifier::external_body]
fn mappings_new() -> (r: CharacterMappings)
    ensures
        mapping_entries(r).dom() == Set::<Seq<char>>::empty(),
{
    CharacterMappings { map: hashbrown::HashMap::new() }
}

/// `hashbrown::HashMap::insert`: afterwards `key` maps to `value` and every
/// other key keeps its value. The value it replaced is dropped.
#[verifier::external_body]
fn mappings_insert(m: &mut CharacterMappings, key: String, value: usize)
    ensures
        mapping_entries(*final(m)) == mapping_entries(*old(m)).insert(key@, value),
{
    m.map.insert(key, value);
}

/// `hashbrown::HashMap::get`: the value of `key`, if the map has it.
#[verifier::external_body]
fn mappings_get(m: &CharacterMappings, key: &String) -> (r: Option<usize>)
    ensures
        r == (if mapping_entries(*m).dom().contains(key@) {
            Some(mapping_entries(*m)[key@])
        } else {
            None
        }),
{
    m.map.get(key).copied()
}

/// `hashbrown::HashMap::len`: the number of keys.
#[verifier::external_body]
fn mappings_len(m: &CharacterMappings) -> (r: usize)
    ensures
        r == mapping_entries(*m).len(),
{
    m.map.len()
}

/// Maps the text of each character to its position in a list of
/// characters.
pub struct CharacterCache {
    pub mappings: CharacterMappings,
}

/// The text a character stands for.
pub open spec fn character_key(c: char) -> Seq<char> {
    seq![c]
}

/// The mappings of `characters`: each character's text to the position of
/// its last occurrence.
pub open spec fn character_positions(characters: Seq<Character>) -> Map<Seq<char>, usize>
    decreases characters.len(),
{
    if characters.len() == 0 {
        Map::empty()
    } else {
        character_positions(characters.drop_last()).insert(
            character_key(characters.last().utf8),
            (characters.len() - 1) as usize,
        )
    }
}

impl CharacterCache {
    /// A cache with no mappings.
    pub fn empty() -> (r: Self)
        ensures
            mapping_entries(r.mappings) == Map::<Seq<char>, usize>::empty(),
    {
        let mappings = mappings_new();
        assert(mapping_entries(mappings) =~= Map::<Seq<char>, usize>::empty());
        CharacterCache { mappings }
    }

    /// The cache of `characters`: each character's text mapped to its
    /// position (the last one, for text that occurs more than once).
    pub fn from_characters(characters: &[Character]) -> (r: Self)
        ensures
            mapping_entries(r.mappings) == character_positions(characters@),
    {
        let mut mapping = mappings_new();
        assert(mapping_entries(mapping) =~= character_positions(characters@.take(0)));
        let mut index: usize = 0;
        while index < characters.len()
            invariant
                index <= characters@.len(),
                mapping_entries(mapping) == character_positions(characters@.take(index as int)),
            decreases characters@.len() - index,
        {
            let mut key = String::new();
            string_push(&mut key, characters[index].utf8);
            assert(key@ == character_key(characters@[index as int].utf8));
            mappings_insert(&mut mapping, key, index);
            assert(characters@.take(index as int + 1).drop_last() =~= characters@.take(index as int));
            index = index + 1;
        }
        assert(characters@.take(characters@.len() as int) =~= characters@);
        CharacterCache { mappings: mapping }
    }

    /// The position that the text `key` maps to, if any.
    pub fn get(&self, key: &String) -> (r: Option<usize>)
        ensures
            r == (if mapping_entries(self.mappings).dom().contains(key@) {
                Some(mapping_entries(self.mappings)[key@])
            } else {
                None
            }),
    {
        mappings_get(&self.mappings, key)
    }

    /// The number of texts mapped.
    pub fn len(&self) -> (r: usize)
        ensures
            r == mapping_entries(self.mappings).len(),
    {
        mappings_len(&self.mappings)
    }
}

} // verus!
