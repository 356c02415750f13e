use vstd::prelude::*;
use crate::entries::{Address, LinkKind, MyChildEntry, MyParentEntry, Record, ZomeError};
use crate::store::{
    Dht, DhtView, Link, lemma_commit_wf, lemma_lineage_after_push, lemma_lineage_unused,
    lemma_links_matching, lemma_links_matching_append, lemma_links_matching_uniform, lemma_revise_wf,
};

verus! {

/// `links` redrawn from `base`, to the same targets, as containment links.
pub open spec fn rebased(links: Seq<Link>, base: Address) -> Seq<Link> {
    links.map_values(|l: Link| Link { base, target: l.target, kind: LinkKind::ParentToChild })
}

/// Store and result of `create_my_parent_entry`.
pub open spec fn create_parent_effect(d: DhtView, entry: MyParentEntry) -> (DhtView, Result<Address, ZomeError>) {
    (d.commit(Record::Parent(entry)), Ok(d.next_address()))
}

/// Store and result of `create_my_child_entry`: the child is committed, then
/// linked from `parent`.
pub open spec fn create_child_effect(d: DhtView, parent: Address, entry: MyChildEntry) -> (
    DhtView,
    Result<Address, ZomeError>,
) {
    let child = d.next_address();
    let (d2, r) = d.commit(Record::Child(entry)).link(parent, child, LinkKind::ParentToChild);
    match r {
        Ok(_) => (d2, Ok(child)),
        Err(err) => (d2, Err(err)),
    }
}

/// Store and result of `update_my_parent_entry`: a new revision of the
/// parent, and a copy of each of the old address's containment links drawn
/// from the new address. The old links stay.
pub open spec fn update_parent_effect(d: DhtView, address: Address, entry: MyParentEntry) -> (
    DhtView,
    Result<Address, ZomeError>,
) {
    let (d1, r) = d.update(address, Record::Parent(entry));
    match r {
        Err(err) => (d, Err(err)),
        Ok(n) => (
            DhtView {
                revisions: d1.revisions,
                links: d1.links + rebased(d.links_from(address, LinkKind::ParentToChild), n),
            },
            Ok(n),
        ),
    }
}

/// Result of `get_children`: the containment links that leave `address`.
pub open spec fn children(d: DhtView, address: Address) -> Result<Seq<Link>, ZomeError> {
    if d.present(address) {
        Ok(d.links_from(address, LinkKind::ParentToChild))
    } else {
        Err(ZomeError::Internal)
    }
}

/// Commits a parent entry; returns its address.
pub fn create_my_parent_entry(dht: &mut Dht, entry: MyParentEntry) -> (r: Result<Address, ZomeError>)
    requires
        old(dht)@.wf(),
        old(dht)@.has_room(1),
    ensures
        (final(dht)@, r) == create_parent_effect(old(dht)@, entry),
        final(dht)@.wf(),
{
    Ok(dht.commit(Record::Parent(entry)))
}

/// Commits a child entry and links it from `parent`; returns the child's
/// address. Where `parent` is not stored the child stays, unlinked, and the
/// call fails with `NotFound`.
pub fn create_my_child_entry(dht: &mut Dht, parent: Address, entry: MyChildEntry) -> (r: Result<
    Address,
    ZomeError,
>)
    requires
        old(dht)@.wf(),
        old(dht)@.has_room(2),
    ensures
        (final(dht)@, r) == create_child_effect(old(dht)@, parent, entry),
        final(dht)@.wf(),
{
    let child = dht.commit(Record::Child(entry));
    match dht.link(parent, child, LinkKind::ParentToChild) {
        Ok(_) => Ok(child),
        Err(err) => Err(err),
    }
}

/// Writes a new revision of the parent at `address` and draws each of its
/// containment links again from the new address; returns the new address.
pub fn update_my_parent_entry(dht: &mut Dht, address: Address, entry: MyParentEntry) -> (r: Result<
    Address,
    ZomeError,
>)
    requires
        old(dht)@.wf(),
        old(dht)@.has_room(old(dht)@.links.len() + 1),
    ensures
        (final(dht)@, r) == update_parent_effect(old(dht)@, address, entry),
        final(dht)@.wf(),
{
    let ghost d0 = dht@;
    let n = match dht.update(address, Record::Parent(entry)) {
        Ok(n) => n,
        Err(err) => return Err(err),
    };
    let ghost d1 = dht@;
    let found = dht.get_links(address, LinkKind::ParentToChild);
    proof {
        lemma_links_matching(d0.links, address, LinkKind::ParentToChild, d1.revisions.len());
    }
    let mut i: usize = 0;
    while i < found.len()
        invariant
            i <= found@.len(),
            found@ == d0.links_from(address, LinkKind::ParentToChild),
            found@.len() <= d0.links.len(),
            forall|k: int| 0 <= k < found@.len() ==> (#[trigger] found@[k]).target < d1.revisions.len(),
            n < d1.revisions.len(),
            d1.links == d0.links,
            d0.has_room(d0.links.len() + 1),
            d1.revisions.len() == d0.revisions.len() + 1,
            dht@.wf(),
            dht@.revisions == d1.revisions,
            dht@.links == d1.links + rebased(found@.take(i as int), n),
        decreases found@.len() - i,
    {
        let target = found[i].target;
        let r = dht.link(n, target, LinkKind::ParentToChild);
        assert(r is Ok);
        assert(rebased(found@.take(i + 1), n) =~= rebased(found@.take(i as int), n).push(
            Link { base: n, target, kind: LinkKind::ParentToChild },
        ));
        i += 1;
    }
    assert(found@.take(i as int) =~= found@);
    Ok(n)
}

/// Writes a new revision of the child at `address`; its links are left alone.
pub fn update_my_child_entry(dht: &mut Dht, address: Address, entry: MyChildEntry) -> (r: Result<
    Address,
    ZomeError,
>)
    requires
        old(dht)@.wf(),
        old(dht)@.has_room(1),
    ensures
        (final(dht)@, r) == old(dht)@.update(address, Record::Child(entry)),
        final(dht)@.wf(),
{
    dht.update(address, Record::Child(entry))
}

/// The record stored at `address`, if any.
pub fn get_entry(dht: &Dht, address: Address) -> (r: Result<Option<Record>, ZomeError>)
    requires
        dht@.wf(),
    ensures
        r == Ok::<Option<Record>, ZomeError>(dht@.get(address)),
{
    Ok(dht.get(address))
}

/// The containment links that leave the parent stored at `address`.
pub fn get_children(dht: &Dht, address: Address) -> (r: Result<Vec<Link>, ZomeError>)
    requires
        dht@.wf(),
    ensures
        r matches Ok(v) ==> children(dht@, address) == Ok::<Seq<Link>, ZomeError>(v@),
        r matches Err(e) ==> children(dht@, address) == Err::<Seq<Link>, ZomeError>(e),
{
    if dht.get(address).is_none() {
        return Err(ZomeError::Internal);
    }
    Ok(dht.get_links(address, LinkKind::ParentToChild))
}

/// The revision chain of the lineage that holds `address`, oldest first, or
/// `None` where `address` is not stored.
pub fn get_entry_history(dht: &Dht, address: Address) -> (r: Result<Option<Vec<Address>>, ZomeError>)
    requires
        dht@.wf(),
    ensures
        r matches Ok(Some(v)) ==> dht@.history(address) == Some(v@),
        r is Ok,
        r matches Ok(None) <==> dht@.history(address) is None,
{
    Ok(dht.history(address))
}

/// `update_my_parent_entry` keeps the store well formed, leaves every
/// revision chain but that of `address` alone, and extends that one by the new
/// address.
pub proof fn lemma_update_parent_history(d: DhtView, address: Address, entry: MyParentEntry)
    requires
        d.wf(),
        d.has_room(d.links.len() + 1),
        d.present(address),
    ensures
        ({
            let (d2, r) = update_parent_effect(d, address, entry);
            &&& r == Ok::<Address, ZomeError>(d.next_address())
            &&& d2.wf()
            &&& d2.history(address) == Some(d.history(address)->Some_0.push(d.next_address()))
            &&& d2.history(d.next_address()) == d2.history(address)
        }),
{
    let n = d.next_address();
    let rec = Record::Parent(entry);
    lemma_revise_wf(d, address, rec);
    let d1 = d.revise(address, rec);
    let (d2, r) = update_parent_effect(d, address, entry);
    let found = d.links_from(address, LinkKind::ParentToChild);
    lemma_links_matching(d.links, address, LinkKind::ParentToChild, d.revisions.len());
    let extra = rebased(found, n);
    assert forall|j: int| 0 <= j < d2.links.len() implies {
        &&& (#[trigger] d2.links[j]).base < d2.revisions.len()
        &&& d2.links[j].target < d2.revisions.len()
    } by {
        if j < d.links.len() {
            assert(d2.links[j] == d.links[j]);
        } else {
            assert(d2.links[j] == extra[j - d.links.len()]);
        }
    }
    lemma_lineage_after_push(d.revisions, d1.revisions.last(), d.origin_of(address));
    assert(d2.revisions[n as int].origin == d.origin_of(address));
}

/// After `update_my_parent_entry(p, e)` returns `p2`, the children of `p2`
/// are those of `p`, in the same order, and the children of `p` are
/// unchanged.
pub proof fn lemma_children_forwarded(d: DhtView, p: Address, entry: MyParentEntry)
    requires
        d.wf(),
        d.has_room(d.links.len() + 1),
        d.present(p),
    ensures
        ({
            let (d2, r) = update_parent_effect(d, p, entry);
            let p2 = r->Ok_0;
            &&& r is Ok
            &&& children(d2, p2) == Ok::<Seq<Link>, ZomeError>(rebased(children(d, p)->Ok_0, p2))
            &&& children(d2, p2)->Ok_0.map_values(|l: Link| l.target) == children(d, p)->Ok_0.map_values(
                |l: Link| l.target,
            )
            &&& children(d2, p) == children(d, p)
        }),
{
    let n = d.next_address();
    let kind = LinkKind::ParentToChild;
    let (d2, r) = update_parent_effect(d, p, entry);
    let found = d.links_from(p, kind);
    let extra = rebased(found, n);
    lemma_links_matching_append(d.links, extra, n, kind);
    lemma_links_matching_append(d.links, extra, p, kind);
    assert forall|k: int| 0 <= k < d.links.len() implies (#[trigger] d.links[k]).base != n by {}
    lemma_links_matching_uniform(d.links, n, kind);
    lemma_links_matching_uniform(extra, n, kind);
    lemma_links_matching_uniform(extra, p, kind);
    assert(Seq::<Link>::empty() + extra =~= extra);
    assert(d.links_from(p, kind) + Seq::<Link>::empty() =~= d.links_from(p, kind));
    assert(extra.map_values(|l: Link| l.target) =~= found.map_values(|l: Link| l.target));
}

/// For a lineage written as `create_my_parent_entry` then two updates, the
/// history at the middle revision holds all three addresses in the order
/// they were written.
pub proof fn lemma_history_complete(
    d: DhtView,
    e1: MyParentEntry,
    e2: MyParentEntry,
    e3: MyParentEntry,
)
    requires
        d.wf(),
        d.has_room(3 * d.links.len() + 3),
    ensures
        ({
            let (d1, r1) = create_parent_effect(d, e1);
            let (d2, r2) = update_parent_effect(d1, r1->Ok_0, e2);
            let (d3, r3) = update_parent_effect(d2, r2->Ok_0, e3);
            &&& r1 is Ok && r2 is Ok && r3 is Ok
            &&& d3.history(r2->Ok_0) == Some(seq![r1->Ok_0, r2->Ok_0, r3->Ok_0])
        }),
{
    let a1 = d.next_address();
    let (d1, r1) = create_parent_effect(d, e1);
    lemma_commit_wf(d, Record::Parent(e1));
    assert forall|i: int| 0 <= i < d.revisions.len() implies (#[trigger] d.revisions[i]).origin != a1 by {}
    lemma_lineage_unused(d.revisions, a1);
    lemma_lineage_after_push(d.revisions, d1.revisions.last(), a1);
    assert(d1.history(a1) == Some(seq![a1]));
    lemma_update_parent_history(d1, a1, e2);
    let (d2, r2) = update_parent_effect(d1, a1, e2);
    lemma_links_matching(d1.links, a1, LinkKind::ParentToChild, d1.revisions.len());
    assert(d2.links.len() <= 2 * d.links.len());
    lemma_update_parent_history(d2, r2->Ok_0, e3);
    assert(seq![a1].push(r2->Ok_0).push((r2->Ok_0 + 1) as Address) =~= seq![a1, r2->Ok_0, (r2->Ok_0 + 1) as Address]);
}

} // verus!
