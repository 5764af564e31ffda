//! Knowledge-graph entities, relation kinds and nodes.
use vstd::prelude::*;

pub mod cooccurrence;
pub mod entity_extractor;
pub mod graph_manager;
pub mod llm_extractor;
pub mod query;
pub mod relation_extractor;

verus! {

/// Kind of an entity; the names are defined entirely by the extractor.
#[derive(Debug, Clone, PartialEq, Eq, Hash)]
pub enum EntityType {
    Custom(String),
}

impl EntityType {
    /// The kind's name.
    pub open spec fn name(&self) -> Seq<char> {
        match self {
            EntityType::Custom(s) => s@,
        }
    }

    /// The kind's name as an owned string.
    pub fn as_str(&self) -> (s: String)
        ensures
            s@ == self.name(),
    {
        match self {
            EntityType::Custom(s) => s.clone(),
        }
    }
}

/// Kind of a relation; the names are defined entirely by the extractor.
#[derive(Debug, Clone, PartialEq, Eq, Hash)]
pub enum RelationType {
    Custom(String),
}

impl RelationType {
    /// The kind's name.
    pub open spec fn name(&self) -> Seq<char> {
        match self {
            RelationType::Custom(s) => s@,
        }
    }

    /// The kind's name as an owned string.
    pub fn as_str(&self) -> (s: String)
        ensures
            s@ == self.name(),
    {
        match self {
            RelationType::Custom(s) => s.clone(),
        }
    }
}

/// Key/value pairs as plain sequences.
pub open spec fn pairs_view(v: Seq<(String, String)>) -> Seq<(Seq<char>, Seq<char>)> {
    v.map_values(|p: (String, String)| (p.0@, p.1@))
}

/// No key occurs twice.
pub open spec fn keys_distinct(s: Seq<(Seq<char>, Seq<char>)>) -> bool {
    forall|i: int, j: int| 0 <= i < j < s.len() ==> #[trigger] s[i].0 != #[trigger] s[j].0
}

/// The map that a list of distinct-keyed pairs stands for.
pub open spec fn pairs_map(s: Seq<(Seq<char>, Seq<char>)>) -> Map<Seq<char>, Seq<char>>
    decreases s.len(),
{
    if s.len() == 0 {
        Map::empty()
    } else {
        pairs_map(s.drop_last()).insert(s.last().0, s.last().1)
    }
}

/// The keys of `pairs_map(s)` are exactly the keys listed in `s`.
pub proof fn lemma_pairs_map_dom(s: Seq<(Seq<char>, Seq<char>)>, k: Seq<char>)
    ensures
        pairs_map(s).contains_key(k) <==> exists|i: int| 0 <= i < s.len() && #[trigger] s[i].0 == k,
    decreases s.len(),
{
    if s.len() > 0 {
        lemma_pairs_map_dom(s.drop_last(), k);
        if pairs_map(s.drop_last()).contains_key(k) {
            let i = choose|i: int| 0 <= i < s.drop_last().len() && #[trigger] s.drop_last()[i].0 == k;
            assert(s[i].0 == k);
        }
        if exists|i: int| 0 <= i < s.len() && #[trigger] s[i].0 == k {
            let i = choose|i: int| 0 <= i < s.len() && #[trigger] s[i].0 == k;
            if i < s.len() - 1 {
                assert(s.drop_last()[i].0 == k);
            }
        }
    }
}

/// Replacing the value at the position of a key, in a list of distinct keys,
/// updates the map at that key.
pub proof fn lemma_pairs_map_update(s: Seq<(Seq<char>, Seq<char>)>, i: int, v: Seq<char>)
    requires
        keys_distinct(s),
        0 <= i < s.len(),
    ensures
        pairs_map(s.update(i, (s[i].0, v))) == pairs_map(s).insert(s[i].0, v),
    decreases s.len(),
{
    let t = s.update(i, (s[i].0, v));
    if i == s.len() - 1 {
        assert(t.drop_last() =~= s.drop_last());
        assert(pairs_map(t) =~= pairs_map(s).insert(s[i].0, v));
    } else {
        assert(t.drop_last() =~= s.drop_last().update(i, (s[i].0, v)));
        lemma_pairs_map_update(s.drop_last(), i, v);
        assert(s.last().0 != s[i].0);
        assert(pairs_map(t) =~= pairs_map(s).insert(s[i].0, v));
    }
}

/// A named thing found in a document.
#[derive(Debug, Clone)]
pub struct Entity {
    pub name: String,
    pub entity_type: EntityType,
    /// Properties as key/value pairs, each key at most once.
    pub properties: Vec<(String, String)>,
    pub file_id: Option<i64>,
    pub kb_id: Option<i64>,
}

impl Entity {
    /// The properties as a map.
    pub open spec fn props(&self) -> Map<Seq<char>, Seq<char>> {
        pairs_map(pairs_view(self.properties@))
    }

    /// No property key occurs twice.
    pub open spec fn wf(&self) -> bool {
        keys_distinct(pairs_view(self.properties@))
    }

    /// An entity with no properties and no file or knowledge base.
    pub fn new(name: String, entity_type: EntityType) -> (e: Entity)
        ensures
            e.name == name,
            e.entity_type == entity_type,
            e.properties@.len() == 0,
            e.props() == Map::<Seq<char>, Seq<char>>::empty(),
            e.file_id.is_none(),
            e.kb_id.is_none(),
            e.wf(),
    {
        let e = Entity { name, entity_type, properties: Vec::new(), file_id: None, kb_id: None };
        assert(pairs_view(e.properties@) =~= Seq::<(Seq<char>, Seq<char>)>::empty());
        e
    }

    /// The entity with `key` set to `value`; an earlier value of the key is
    /// replaced.
    pub fn with_property(self, key: String, value: String) -> (e: Entity)
        requires
            self.wf(),
        ensures
            e.wf(),
            e.props() == self.props().insert(key@, value@),
            e.name == self.name,
            e.entity_type == self.entity_type,
            e.file_id == self.file_id,
            e.kb_id == self.kb_id,
    {
        let Entity { name, entity_type, properties, file_id, kb_id } = self;
        let properties = set_pair(properties, key, value);
        Entity { name, entity_type, properties, file_id, kb_id }
    }
}

/// Sets `key` to `value` in a list of distinct-keyed pairs: the pair with
/// that key gets the new value, or the pair is appended.
#[verifier::loop_isolation(false)]
fn set_pair(props: Vec<(String, String)>, key: String, value: String) -> (r: Vec<(String, String)>)
    requires
        keys_distinct(pairs_view(props@)),
    ensures
        keys_distinct(pairs_view(r@)),
        pairs_map(pairs_view(r@)) == pairs_map(pairs_view(props@)).insert(key@, value@),
{
    let mut props = props;
    let ghost old_pairs = pairs_view(props@);
    let n = props.len();
    let mut i: usize = 0;
    while i < n
        invariant
            n == props@.len(),
            old_pairs == pairs_view(props@),
            keys_distinct(old_pairs),
            i <= n,
            forall|j: int| 0 <= j < i ==> props@[j].0@ != key@,
        decreases n - i,
    {
        if crate::text::str_eq(props[i].0.as_str(), key.as_str()) {
            let k = props[i].0.clone();
            props.set(i, (k, value));
            proof {
                assert(old_pairs[i as int].0 == key@);
                assert(pairs_view(props@) =~= old_pairs.update(i as int, (old_pairs[i as int].0, value@)));
                lemma_pairs_map_update(old_pairs, i as int, value@);
                assert(pairs_map(pairs_view(props@)) == pairs_map(old_pairs).insert(key@, value@));
                let pv = pairs_view(props@);
                assert forall|a: int, b: int| 0 <= a < b < pv.len()
                    implies #[trigger] pv[a].0 != #[trigger] pv[b].0 by {
                    assert(old_pairs[a].0 != old_pairs[b].0);
                    assert(pv[a].0 == old_pairs[a].0);
                    assert(pv[b].0 == old_pairs[b].0);
                }
            }
            return props;
        }
        i = i + 1;
    }
    let ghost before = props@;
    props.push((key, value));
    proof {
        let pv = pairs_view(props@);
        assert(pv =~= old_pairs.push((key@, value@)));
        assert(pv.drop_last() =~= old_pairs);
        assert forall|a: int, b: int| 0 <= a < b < pv.len()
            implies #[trigger] pv[a].0 != #[trigger] pv[b].0 by {
            if b == pv.len() - 1 {
                assert(before[a].0@ != key@);
            } else {
                assert(old_pairs[a].0 != old_pairs[b].0);
            }
        }
    }
    props
}

/// Copies of key/value pairs.
fn clone_pairs(v: &Vec<(String, String)>) -> (r: Vec<(String, String)>)
    ensures
        pairs_view(r@) == pairs_view(v@),
{
    let mut r: Vec<(String, String)> = Vec::new();
    let mut i: usize = 0;
    while i < v.len()
        invariant
            i <= v.len(),
            r@.len() == i,
            pairs_view(r@) == pairs_view(v@).take(i as int),
        decreases v.len() - i,
    {
        let k = v[i].0.clone();
        let val = v[i].1.clone();
        let ghost old_r = r@;
        r.push((k, val));
        proof {
            assert(r@ == old_r.push((k, val)));
            assert(k@ == v@[i as int].0@);
            assert(val@ == v@[i as int].1@);
            assert(pairs_view(r@)[i as int] == pairs_view(v@)[i as int]);
            assert forall|j: int| 0 <= j < i + 1 implies #[trigger] pairs_view(r@)[j] == pairs_view(v@).take(i + 1)[j] by {
                if j < i {
                    assert(pairs_view(old_r)[j] == pairs_view(v@).take(i as int)[j]);
                }
            }
            assert(pairs_view(r@) =~= pairs_view(v@).take(i + 1));
        }
        i = i + 1;
    }
    assert(pairs_view(v@).take(v.len() as int) =~= pairs_view(v@));
    r
}

/// A node of the stored graph.
#[derive(Debug, Clone)]
pub struct Node {
    pub id: i64,
    pub name: String,
    pub entity_type: EntityType,
    pub properties: Vec<(String, String)>,
}

impl Node {
    /// The node with identifier `id` that stands for `entity`.
    pub fn from_entity(entity: &Entity, id: i64) -> (n: Node)
        ensures
            n.id == id,
            n.name@ == entity.name@,
            n.entity_type.name() == entity.entity_type.name(),
            pairs_view(n.properties@) == pairs_view(entity.properties@),
    {
        let name = entity.name.clone();
        let entity_type = match &entity.entity_type {
            EntityType::Custom(s) => EntityType::Custom(s.clone()),
        };
        Node { id, name, entity_type, properties: clone_pairs(&entity.properties) }
    }
}

} // verus!
