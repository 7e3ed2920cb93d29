use vstd::prelude::*;
use vstd::multiset::Multiset;
use crate::renderer::TileInfo;

verus! {

#[verifier::external_type_specification]
#[verifier::external_body]
#[verifier::reject_recursive_types(T)]
pub struct ExInjector<T>(crossbeam_deque::Injector<T>);

/// The multiset of tiles pushed into the work-stealing queue so far.
pub uninterp spec fn injector_tiles(q: crossbeam_deque::Injector<TileInfo>) -> Multiset<TileInfo>;

/// Relies on crossbeam_deque::Injector::new: a fresh queue holds nothing.
#[verifier::external_body]
pub fn queue_new() -> (q: crossbeam_deque::Injector<TileInfo>)
    ensures
        injector_tiles(q) == Multiset::<TileInfo>::empty(),
{
    crossbeam_deque::Injector::new()
}

/// Relies on crossbeam_deque::Injector::push: the pushed task joins the
/// queue's contents.
#[verifier::external_body]
pub fn queue_push(q: &mut crossbeam_deque::Injector<TileInfo>, t: TileInfo)
    ensures
        injector_tiles(*final(q)) == injector_tiles(*old(q)).insert(t),
{
    q.push(t)
}

/// Relies on crossbeam_deque::Injector::steal: whatever is handed out was
/// pushed before. The queue is shared between stealing workers, so a `None`
/// answer — empty, or a lost race — promises nothing more.
#[verifier::external_body]
pub fn queue_steal(q: &crossbeam_deque::Injector<TileInfo>) -> (r: Option<TileInfo>)
    ensures
        r matches Option::Some(t) ==> injector_tiles(*q).contains(t),
{
    match q.steal() {
        crossbeam_deque::Steal::Success(t) => Option::Some(t),
        crossbeam_deque::Steal::Empty => Option::None,
        crossbeam_deque::Steal::Retry => Option::None,
    }
}

/// Pushes every generated tile into the queue, in order.
pub fn fill_queue(q: &mut crossbeam_deque::Injector<TileInfo>, tiles: &Vec<TileInfo>)
    ensures
        forall|t: TileInfo|
            injector_tiles(*old(q)).contains(t) ==> injector_tiles(*final(q)).contains(t),
        forall|k: int|
            0 <= k < tiles@.len() ==> injector_tiles(*final(q)).contains(#[trigger] tiles@[k]),
{
    let n = tiles.len();
    let mut i: usize = 0;
    while i < n
        invariant
            i <= n,
            n == tiles@.len(),
            forall|t: TileInfo|
                injector_tiles(*old(q)).contains(t) ==> injector_tiles(*q).contains(t),
            forall|k: int|
                0 <= k < i ==> injector_tiles(*q).contains(#[trigger] tiles@[k]),
        decreases n - i,
    {
        queue_push(q, tiles[i]);
        i = i + 1;
    }
}

} // verus!
