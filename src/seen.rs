use roaring::RoaringBitmap;
use vstd::prelude::*;

verus! {

#[verifier::external_type_specification]
#[verifier::external_body]
pub struct ExRoaringBitmap(RoaringBitmap);

/// The page numbers that a bitmap holds.
pub uninterp spec fn bitmap_pages(b: RoaringBitmap) -> Set<u32>;

/// Relies on roaring's `RoaringBitmap::new`: the bitmap starts empty.
#[verifier::external_body]
fn bitmap_new() -> (r: RoaringBitmap)
    ensures
        bitmap_pages(r) == Set::<u32>::empty(),
{
    RoaringBitmap::new()
}

/// Relies on roaring's `RoaringBitmap::contains`: membership of one value.
#[verifier::external_body]
fn bitmap_contains(b: &RoaringBitmap, page: u32) -> (r: bool)
    ensures
        r == bitmap_pages(*b).contains(page),
{
    b.contains(page)
}

/// Relies on roaring's `RoaringBitmap::insert`: adds the value and returns
/// whether it was absent.
#[verifier::external_body]
fn bitmap_insert(b: &mut RoaringBitmap, page: u32) -> (r: bool)
    ensures
        bitmap_pages(*final(b)) == bitmap_pages(*old(b)).insert(page),
        r == !bitmap_pages(*old(b)).contains(page),
{
    b.insert(page)
}

/// The set of pages whose newest value a replication session has already
/// observed. It only grows.
pub struct SeenPages {
    bits: RoaringBitmap,
}

impl View for SeenPages {
    type V = Set<u32>;

    closed spec fn view(&self) -> Set<u32> {
        bitmap_pages(self.bits)
    }
}

impl SeenPages {
    /// An empty set.
    pub fn new() -> (r: SeenPages)
        ensures
            r@ == Set::<u32>::empty(),
    {
        SeenPages { bits: bitmap_new() }
    }

    pub fn contains(&self, page: u32) -> (r: bool)
        ensures
            r == self@.contains(page),
    {
        bitmap_contains(&self.bits, page)
    }

    /// Adds a page; returns whether it was absent before.
    pub fn insert(&mut self, page: u32) -> (r: bool)
        ensures
            final(self)@ == old(self)@.insert(page),
            r == !old(self)@.contains(page),
    {
        bitmap_insert(&mut self.bits, page)
    }
}

} // verus!
