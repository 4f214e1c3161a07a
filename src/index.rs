use crate::stream::IndexEntry;
use fst::Map as FstMap;
use vstd::bytes::{
    lemma_auto_spec_u32_to_from_le_bytes, spec_u32_from_le_bytes, spec_u32_to_le_bytes,
    u32_from_le_bytes, u32_to_le_bytes,
};
use vstd::prelude::*;

verus! {

#[verifier::external_type_specification]
#[verifier::external_body]
#[verifier::reject_recursive_types(D)]
pub struct ExFstMap<D>(FstMap<D>);

/// The (key, offset) pairs that a segment index map holds, in key order.
pub uninterp spec fn fst_entries(m: FstMap<Vec<u8>>) -> Seq<(Seq<u8>, u64)>;

/// Whether a map's bytes are a valid FST, as fst's builder writes them. Only
/// such maps can be read without a panic.
pub uninterp spec fn fst_well_formed(m: FstMap<Vec<u8>>) -> bool;

/// Lexicographic order on byte strings, as std orders slices.
pub open spec fn bytes_less(a: Seq<u8>, b: Seq<u8>) -> bool
    decreases a.len(),
{
    if a.len() == 0 {
        b.len() > 0
    } else if b.len() == 0 {
        false
    } else if a[0] != b[0] {
        a[0] < b[0]
    } else {
        bytes_less(a.skip(1), b.skip(1))
    }
}

/// Whether each key is strictly greater than the one before it.
pub open spec fn keys_increasing(e: Seq<(Seq<u8>, u64)>) -> bool {
    forall|i: int| 0 < i < e.len() ==> bytes_less(e[i - 1].0, #[trigger] e[i].0)
}

/// Relies on fst's `Map::from_iter`: the builder accepts keys in strictly
/// increasing order and refuses any other order; the map it writes is a
/// valid FST that holds exactly the given pairs.
#[verifier::external_body]
fn map_from_sorted(entries: Vec<(Vec<u8>, u64)>) -> (r: Option<FstMap<Vec<u8>>>)
    ensures
        r is Some <==> keys_increasing(entries.deep_view()),
        r matches Some(m) ==> fst_well_formed(m) && fst_entries(m) == entries.deep_view(),
{
    FstMap::from_iter(entries).ok()
}

/// Relies on fst's `Map::stream` and `Stream::into_byte_vec`: every key of a
/// valid map with its value, each key once, in increasing order.
#[verifier::external_body]
fn map_entries(m: &FstMap<Vec<u8>>) -> (r: Vec<(Vec<u8>, u64)>)
    requires
        fst_well_formed(*m),
    ensures
        r.deep_view() == fst_entries(*m),
        keys_increasing(r.deep_view()),
{
    m.stream().into_byte_vec()
}

/// The big-endian 4-byte key of a page number.
pub open spec fn key_of_page(p: u32) -> Seq<u8> {
    let le = spec_u32_to_le_bytes(p);
    seq![le[3], le[2], le[1], le[0]]
}

/// The raw (key, offset) pairs that index entries are stored as.
pub open spec fn encoded_index(idx: Seq<IndexEntry>) -> Seq<(Seq<u8>, u64)> {
    Seq::new(idx.len(), |i: int| (key_of_page(idx[i].0), idx[i].1))
}

/// The page number that a big-endian 4-byte key names.
pub open spec fn page_of_key(k: Seq<u8>) -> u32 {
    spec_u32_from_le_bytes(seq![k[3], k[2], k[1], k[0]])
}

/// Whether every key of an index is a 4-byte page number.
pub open spec fn keys_well_formed(e: Seq<(Seq<u8>, u64)>) -> bool {
    forall|i: int| 0 <= i < e.len() ==> (#[trigger] e[i]).0.len() == 4
}

/// The index entries that well-formed raw entries stand for.
pub open spec fn decoded_index(e: Seq<(Seq<u8>, u64)>) -> Seq<IndexEntry> {
    Seq::new(e.len(), |i: int| (page_of_key(e[i].0), e[i].1))
}

/// Reads the page number from a big-endian 4-byte key.
pub fn page_from_key(key: &[u8]) -> (r: Option<u32>)
    ensures
        r is Some <==> key@.len() == 4,
        r matches Some(p) ==> p == page_of_key(key@),
{
    if key.len() != 4 {
        return None;
    }
    let le: Vec<u8> = vec![key[3], key[2], key[1], key[0]];
    assert(le@ =~= seq![key@[3], key@[2], key@[1], key@[0]]);
    Some(u32_from_le_bytes(le.as_slice()))
}

/// Decodes raw (key, offset) pairs into index entries, or `None` when a key
/// is not a 4-byte page number.
pub fn decode_index(entries: &Vec<(Vec<u8>, u64)>) -> (r: Option<Vec<IndexEntry>>)
    ensures
        r is Some <==> keys_well_formed(entries.deep_view()),
        r matches Some(v) ==> v@ == decoded_index(entries.deep_view()),
{
    let ghost e = entries.deep_view();
    let mut out: Vec<IndexEntry> = Vec::new();
    let mut i: usize = 0;
    while i < entries.len()
        invariant
            i <= entries@.len(),
            e == entries.deep_view(),
            e.len() == entries@.len(),
            forall|j: int| 0 <= j < i ==> (#[trigger] e[j]).0.len() == 4,
            out@ =~= decoded_index(e).take(i as int),
        decreases entries@.len() - i,
    {
        assert(e[i as int].0 == entries@[i as int].0@);
        match page_from_key(entries[i].0.as_slice()) {
            None => {
                return None;
            },
            Some(p) => {
                out.push((p, entries[i].1));
            },
        }
        i = i + 1;
    }
    assert(out@ =~= decoded_index(e));
    Some(out)
}

/// The index entries of a valid segment index map, or `None` when one of its
/// keys is not a 4-byte page number.
pub fn read_index(m: &FstMap<Vec<u8>>) -> (r: Option<Vec<IndexEntry>>)
    requires
        fst_well_formed(*m),
    ensures
        r is Some <==> keys_well_formed(fst_entries(*m)),
        r matches Some(v) ==> v@ == decoded_index(fst_entries(*m)),
{
    let entries = map_entries(m);
    decode_index(&entries)
}

/// Writes index entries as a segment index map, each page under its
/// big-endian key. Fails when the keys would not be strictly increasing.
pub fn build_index(index: &Vec<IndexEntry>) -> (r: Option<FstMap<Vec<u8>>>)
    ensures
        r is Some <==> keys_increasing(encoded_index(index@)),
        r matches Some(m) ==> fst_well_formed(m) && fst_entries(m) == encoded_index(index@)
            && decoded_index(fst_entries(m)) == index@,
{
    proof {
        lemma_auto_spec_u32_to_from_le_bytes();
    }
    let mut raw: Vec<(Vec<u8>, u64)> = Vec::new();
    let mut i: usize = 0;
    while i < index.len()
        invariant
            i <= index@.len(),
            raw@.len() == i,
            forall|j: int|
                0 <= j < i ==> (#[trigger] raw@[j]).0@ == key_of_page(index@[j].0) && raw@[j].1
                    == index@[j].1,
        decreases index@.len() - i,
    {
        let (page, offset) = index[i];
        let le = u32_to_le_bytes(page);
        let key: Vec<u8> = vec![le[3], le[2], le[1], le[0]];
        assert(key@ =~= key_of_page(page));
        raw.push((key, offset));
        i = i + 1;
    }
    proof {
        let e = encoded_index(index@);
        assert(raw.deep_view() =~= e) by {
            assert forall|k: int| 0 <= k < e.len() implies raw.deep_view()[k] == e[k] by {
                assert(raw@[k].0@ == key_of_page(index@[k].0));
            }
        }
        assert forall|k: int| 0 <= k < e.len() implies page_of_key(e[k].0) == index@[k].0 by {
            let le = spec_u32_to_le_bytes(index@[k].0);
            assert(seq![le[0], le[1], le[2], le[3]] =~= le);
        }
        assert(decoded_index(e) =~= index@);
    }
    map_from_sorted(raw)
}

} // verus!
