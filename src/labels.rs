use vstd::prelude::*;
use hash40::label_map::LabelMap;

verus! {

/// The 40-bit hash of a label: a CRC-32 of its lowercased bytes, with the byte
/// length in bits 32 to 39.
pub uninterp spec fn hash40_of(s: Seq<char>) -> u64;

/// Relies on hash40::hash40, which computes the hash from the string alone;
/// the CRC fills the low 32 bits and the length byte the next 8.
#[verifier::external_body]
fn compute_hash(s: &str) -> (r: u64)
    ensures
        r == hash40_of(s@),
        r < 0x100_0000_0000,
{
    hash40::hash40(s).0
}

/// The hash of a label, as it appears as a struct key.
pub fn label_hash(label: &String) -> (r: u64)
    ensures
        r == hash40_of(label@),
        r < 0x100_0000_0000,
{
    compute_hash(label.as_str())
}

#[verifier::external_type_specification]
#[verifier::external_body]
pub struct ExLabelMap(LabelMap);

/// The pairs of hash and label that a hash40 label map holds.
pub uninterp spec fn labels_held(m: LabelMap) -> Map<u64, Seq<char>>;

/// `m` after pairing hash `h` with label `l`: the map is two-way, so the pair
/// that held `h` and the pair that held `l` both give way to the new one.
pub open spec fn relabelled(m: Map<u64, Seq<char>>, h: u64, l: Seq<char>) -> Map<u64, Seq<char>> {
    Map::new(|k: u64| m.contains_key(k) && k != h && m[k] != l, |k: u64| m[k]).insert(h, l)
}

/// The labels of a sequence of strings, each under its own hash, merged into `m`.
pub open spec fn merged(m: Map<u64, Seq<char>>, ls: Seq<Seq<char>>) -> Map<u64, Seq<char>>
    decreases ls.len(),
{
    if ls.len() == 0 {
        m
    } else {
        let l = ls[ls.len() - 1];
        relabelled(merged(m, ls.subrange(0, ls.len() - 1)), hash40_of(l), l)
    }
}

/// Relies on the derived `Default` of hash40's `LabelMap`: an empty bimap.
#[verifier::external_body]
fn empty_label_map() -> (r: LabelMap)
    ensures
        labels_held(r).dom().len() == 0,
        labels_held(r).dom().finite(),
{
    LabelMap::default()
}

/// Relies on `LabelMap::add_custom_labels`, which inserts each pair into its
/// `BiHashMap`; `BiHashMap::insert` first removes the pair that holds the hash
/// and the pair that holds the label.
#[verifier::external_body]
fn insert_label(m: &mut LabelMap, hash: u64, label: String)
    ensures
        labels_held(*final(m)) == relabelled(labels_held(*old(m)), hash, label@),
{
    m.add_custom_labels(std::iter::once((hash40::Hash40(hash), label)));
}

/// Relies on `LabelMap::label_of`: the label paired with the hash, if any.
#[verifier::external_body]
fn lookup_label(m: &LabelMap, hash: u64) -> (r: Option<String>)
    ensures
        match r {
            Some(l) => labels_held(*m).contains_key(hash) && labels_held(*m)[hash] == l@,
            None => !labels_held(*m).contains_key(hash),
        },
{
    m.label_of(hash40::Hash40(hash))
}

/// A registry that pairs hashes with human-readable labels, one label per
/// hash and one hash per label.
pub struct LabelRegistry {
    map: LabelMap,
}

impl View for LabelRegistry {
    type V = Map<u64, Seq<char>>;

    closed spec fn view(&self) -> Map<u64, Seq<char>> {
        labels_held(self.map)
    }
}

impl LabelRegistry {
    /// An empty registry.
    pub fn new() -> (r: LabelRegistry)
        ensures
            r@ == Map::<u64, Seq<char>>::empty(),
    {
        LabelRegistry { map: empty_label_map() }
    }

    /// Pairs `label` with `hash`; the label that `hash` had and the hash that
    /// `label` had are dropped.
    pub fn add_label(&mut self, hash: u64, label: String)
        ensures
            final(self)@ == relabelled(old(self)@, hash, label@),
    {
        insert_label(&mut self.map, hash, label);
    }

    /// Registers each string under its own hash, in order; a later string
    /// overrides an earlier pairing of the same hash.
    pub fn merge_labels(&mut self, labels: &Vec<String>)
        ensures
            final(self)@ == merged(old(self)@, labels@.map_values(|l: String| l@)),
    {
        let ghost start = self@;
        let ghost ls = labels@.map_values(|l: String| l@);
        let mut i: usize = 0;
        while i < labels.len()
            invariant
                i <= labels.len(),
                ls == labels@.map_values(|l: String| l@),
                self@ == merged(start, ls.subrange(0, i as int)),
            decreases labels.len() - i,
        {
            let h = label_hash(&labels[i]);
            self.add_label(h, labels[i].clone());
            assert(ls.subrange(0, i + 1).subrange(0, i as int) =~= ls.subrange(0, i as int));
            i = i + 1;
        }
        assert(ls.subrange(0, labels.len() as int) =~= ls);
    }

    /// The label paired with `hash`, if any.
    pub fn label_of(&self, hash: u64) -> (r: Option<String>)
        ensures
            match r {
                Some(l) => self@.contains_key(hash) && self@[hash] == l@,
                None => !self@.contains_key(hash),
            },
    {
        lookup_label(&self.map, hash)
    }
}

} // verus!
