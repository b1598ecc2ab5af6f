//! The catalog index: an in-memory mapping from record identity, the pair
//! `<name>=<schema>` written as one key, to the decoded record. Identities
//! need not be unique across the input tree; a later insertion under the
//! same identity overwrites the earlier one.

use vstd::prelude::*;
use crate::model::{ConfigModel, DeclarativeConfig};
use crate::text::str_eq;
use vstd::string::{StrSliceExecFns, StringExecFns};

verus! {

broadcast use vstd::std_specs::vec::group_vec_axioms, vstd::seq::group_seq_axioms;

/// The identity key of a record: its name and schema joined by `=`.
pub open spec fn index_key_spec(name: Seq<char>, schema: Seq<char>) -> Seq<char> {
    name + seq!['='] + schema
}

/// Builds the identity key `<name>=<schema>`.
pub fn index_key(name: &str, schema: &str) -> (r: String)
    ensures
        r@ == index_key_spec(name@, schema@),
{
    let mut t = name.to_owned();
    t.append("=");
    t.append(schema);
    proof {
        reveal_strlit("=");
        assert(t@ =~= index_key_spec(name@, schema@));
    }
    t
}

/// The mapping an association list denotes: a later row overwrites an
/// earlier row with the same key.
pub open spec fn assoc_map(rows: Seq<(String, DeclarativeConfig)>) -> Map<Seq<char>, ConfigModel>
    decreases rows.len(),
{
    if rows.len() == 0 {
        Map::empty()
    } else {
        assoc_map(rows.drop_last()).insert(rows.last().0@, rows.last().1.deep_view())
    }
}

/// The in-memory index from record identity to record.
pub struct CatalogIndex {
    rows: Vec<(String, DeclarativeConfig)>,
}

impl View for CatalogIndex {
    type V = Map<Seq<char>, ConfigModel>;

    closed spec fn view(&self) -> Map<Seq<char>, ConfigModel> {
        assoc_map(self.rows@)
    }
}

/// With no row at or after `i` bound to `key`, a lookup of `key` sees only
/// the first `i` rows.
proof fn lemma_assoc_tail_free(rows: Seq<(String, DeclarativeConfig)>, key: Seq<char>, i: int)
    requires
        0 <= i <= rows.len(),
        forall|t: int| i <= t < rows.len() ==> (#[trigger] rows[t].0)@ != key,
    ensures
        assoc_map(rows).contains_key(key) == assoc_map(rows.take(i)).contains_key(key),
        assoc_map(rows).contains_key(key) ==> assoc_map(rows)[key] == assoc_map(rows.take(i))[key],
    decreases rows.len() - i,
{
    if i < rows.len() {
        lemma_assoc_tail_free(rows, key, i + 1);
        assert(rows.take(i + 1).drop_last() =~= rows.take(i));
        assert(rows.take(i + 1).last() == rows[i]);
    } else {
        assert(rows.take(i) =~= rows);
    }
}

/// A row whose key occurs in no later row is what a lookup of that key sees.
proof fn lemma_assoc_hit(rows: Seq<(String, DeclarativeConfig)>, key: Seq<char>, i: int)
    requires
        0 <= i < rows.len(),
        rows[i].0@ == key,
        forall|t: int| i < t < rows.len() ==> (#[trigger] rows[t].0)@ != key,
    ensures
        assoc_map(rows).contains_key(key),
        assoc_map(rows)[key] == rows[i].1.deep_view(),
{
    lemma_assoc_tail_free(rows, key, i + 1);
    assert(rows.take(i + 1).drop_last() =~= rows.take(i));
    assert(rows.take(i + 1).last() == rows[i]);
}

impl CatalogIndex {
    /// An empty index.
    pub fn new() -> (r: CatalogIndex)
        ensures
            r@ == Map::<Seq<char>, ConfigModel>::empty(),
    {
        CatalogIndex { rows: Vec::new() }
    }

    /// Inserts a record under its identity. A record lacking either identity
    /// field is refused, and the index is unchanged.
    pub fn insert(&mut self, rec: DeclarativeConfig) -> (ok: bool)
        ensures
            ok == rec.spec_is_valid(),
            ok ==> final(self)@ == old(self)@.insert(
                index_key_spec(rec.name->Some_0@, rec.schema->Some_0@),
                rec.deep_view(),
            ),
            !ok ==> final(self)@ == old(self)@,
    {
        if !(rec.schema.is_some() && rec.name.is_some()) {
            return false;
        }
        let name_s = match &rec.name {
            Option::Some(n) => n.clone(),
            Option::None => String::new(),
        };
        let schema_s = match &rec.schema {
            Option::Some(n) => n.clone(),
            Option::None => String::new(),
        };
        let key = index_key(name_s.as_str(), schema_s.as_str());
        let ghost rows0 = self.rows@;
        self.rows.push((key, rec));
        proof {
            assert(self.rows@.drop_last() =~= rows0);
        }
        true
    }

    /// Looks up the record stored under a key; the record inserted last
    /// under that identity is the one seen.
    pub fn get(&self, key: &str) -> (r: Option<&DeclarativeConfig>)
        ensures
            match r {
                Option::Some(rec) => self@.contains_key(key@) && self@[key@] == rec.deep_view(),
                Option::None => !self@.contains_key(key@),
            },
    {
        let mut i: usize = self.rows.len();
        while i > 0
            invariant
                i <= self.rows@.len(),
                forall|t: int| i <= t < self.rows@.len() ==> (#[trigger] self.rows@[t].0)@ != key@,
            decreases i,
        {
            i -= 1;
            if str_eq(self.rows[i].0.as_str(), key) {
                proof {
                    lemma_assoc_hit(self.rows@, key@, i as int);
                }
                return Some(&self.rows[i].1);
            }
        }
        proof {
            lemma_assoc_tail_free(self.rows@, key@, 0);
            assert(self.rows@.take(0) =~= Seq::<(String, DeclarativeConfig)>::empty());
        }
        None
    }
}

/// Last write wins: inserting two records under one identity leaves an index
/// in which that identity maps to the later record alone, exactly as if the
/// earlier insertion had never happened.
pub proof fn lemma_index_last_wins(
    m: Map<Seq<char>, ConfigModel>,
    key: Seq<char>,
    first: ConfigModel,
    second: ConfigModel,
)
    ensures
        m.insert(key, first).insert(key, second) == m.insert(key, second),
{
    assert(m.insert(key, first).insert(key, second) =~= m.insert(key, second));
}

} // verus!
