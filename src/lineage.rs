use vstd::prelude::*;
use crate::entries::{Address, LinkKind, MyEntry, Record, ZomeError};
use crate::store::{Dht, DhtView, Link};

verus! {

/// The lineage root that a fetched record carries.
pub open spec fn root_of(rec: Record) -> Result<Address, ZomeError> {
    match rec {
        Record::My(e) => match e.root {
            Some(r) => Ok(r),
            None => Err(ZomeError::RootUnset),
        },
        _ => Err(ZomeError::NotMyEntry),
    }
}

/// `rec` is a `MyEntry` whose root is `root`.
pub open spec fn is_rooted_at(rec: Record, root: Address) -> bool {
    rec matches Record::My(e) && e.root == Some(root)
}

/// `entry` with its root replaced by `root`.
pub open spec fn rooted(entry: MyEntry, root: Address) -> MyEntry {
    MyEntry { content: entry.content, root: Some(root) }
}

/// What an update of `stored` to `entry` writes: `None` where the rooted
/// entry is the stored one already, else the revision to write.
pub open spec fn update_plan(entry: MyEntry, stored: Record) -> Result<Option<MyEntry>, ZomeError> {
    match root_of(stored) {
        Err(err) => Err(err),
        Ok(root) => if stored.content_view() == entry.content@ {
            Ok(None)
        } else {
            Ok(Some(rooted(entry, root)))
        },
    }
}

/// Store and result of `create_my_entry`: the entry is committed as the first
/// revision, then revised to point at that first revision.
pub open spec fn create_my_entry_effect(d: DhtView, entry: MyEntry) -> (DhtView, Result<Address, ZomeError>) {
    let first = d.next_address();
    d.commit(Record::My(entry)).update(first, Record::My(rooted(entry, first)))
}

/// Store and result of `update_my_entry`.
pub open spec fn update_my_entry_effect(d: DhtView, entry: MyEntry, address: Address) -> (
    DhtView,
    Result<Address, ZomeError>,
) {
    match d.get(address) {
        None => (d, Err(ZomeError::NotFound)),
        Some(stored) => match update_plan(entry, stored) {
            Err(err) => (d, Err(err)),
            Ok(None) => (d, Ok(address)),
            Ok(Some(next)) => d.update(address, Record::My(next)),
        },
    }
}

/// Store and result of `link_my_entries`: a link between the two lineage roots.
pub open spec fn link_my_entries_effect(d: DhtView, base: Address, target: Address) -> (
    DhtView,
    Result<Address, ZomeError>,
) {
    match (d.get(base), d.get(target)) {
        (Some(b), Some(t)) => match root_of(b) {
            Err(err) => (d, Err(err)),
            Ok(rb) => match root_of(t) {
                Err(err) => (d, Err(err)),
                Ok(rt) => d.link(rb, rt, LinkKind::MyEntryToMyEntry),
            },
        },
        _ => (d, Err(ZomeError::NotFound)),
    }
}

/// Result of `get_linked_my_entries`: the links that leave the lineage root.
pub open spec fn linked_my_entries(d: DhtView, base: Address) -> Result<Seq<Link>, ZomeError> {
    match d.get(base) {
        None => Err(ZomeError::NotFound),
        Some(b) => match root_of(b) {
            Err(err) => Err(err),
            Ok(root) => Ok(d.links_from(root, LinkKind::MyEntryToMyEntry)),
        },
    }
}

/// The lineage root that a fetched record carries.
pub fn lineage_root(stored: &Record) -> (r: Result<Address, ZomeError>)
    ensures
        r == root_of(*stored),
{
    match stored {
        Record::My(e) => match e.root {
            Some(root) => Ok(root),
            None => Err(ZomeError::RootUnset),
        },
        _ => Err(ZomeError::NotMyEntry),
    }
}

/// Decides an update of the fetched record `stored` to `entry`: no write where
/// nothing would change, else the revision to write, which keeps the root.
pub fn plan_update(entry: &MyEntry, stored: &Record) -> (r: Result<Option<MyEntry>, ZomeError>)
    ensures
        r == update_plan(*entry, *stored),
{
    let root = lineage_root(stored)?;
    match stored {
        Record::My(old) => {
            if old.content == entry.content {
                Ok(None)
            } else {
                Ok(Some(entry.with_root(root)))
            }
        },
        _ => Err(ZomeError::NotMyEntry),
    }
}

/// Commits `entry`, then revises it to point at its own first revision;
/// returns the address of that second revision.
pub fn create_my_entry(dht: &mut Dht, entry: MyEntry) -> (r: Result<Address, ZomeError>)
    requires
        old(dht)@.wf(),
        old(dht)@.has_room(2),
    ensures
        (final(dht)@, r) == create_my_entry_effect(old(dht)@, entry),
        r is Ok,
        final(dht)@.wf(),
{
    let rooted_entry = entry.with_root(dht.revisions.len() as Address);
    let first = dht.commit(Record::My(entry));
    dht.update(first, Record::My(rooted_entry))
}

/// Writes a new revision of the entry at `address` that keeps its root; where
/// nothing would change, writes nothing and returns `address`.
pub fn update_my_entry(dht: &mut Dht, entry: MyEntry, address: Address) -> (r: Result<Address, ZomeError>)
    requires
        old(dht)@.wf(),
        old(dht)@.has_room(1),
    ensures
        (final(dht)@, r) == update_my_entry_effect(old(dht)@, entry, address),
        final(dht)@.wf(),
{
    let stored = match dht.get(address) {
        Some(s) => s,
        None => return Err(ZomeError::NotFound),
    };
    match plan_update(&entry, &stored)? {
        None => Ok(address),
        Some(next) => dht.update(address, Record::My(next)),
    }
}

/// The record stored at `address`, if any.
pub fn get_my_entry(dht: &Dht, address: Address) -> (r: Result<Option<Record>, ZomeError>)
    requires
        dht@.wf(),
    ensures
        r == Ok::<Option<Record>, ZomeError>(dht@.get(address)),
{
    Ok(dht.get(address))
}

/// Links the lineage root of the entry at `base_address` to that of the entry
/// at `target_address`; returns the link's address.
pub fn link_my_entries(dht: &mut Dht, base_address: Address, target_address: Address) -> (r: Result<
    Address,
    ZomeError,
>)
    requires
        old(dht)@.wf(),
        old(dht)@.has_room(1),
    ensures
        (final(dht)@, r) == link_my_entries_effect(old(dht)@, base_address, target_address),
        final(dht)@.wf(),
{
    let base = dht.get(base_address);
    let target = dht.get(target_address);
    match (base, target) {
        (Some(b), Some(t)) => {
            let rb = lineage_root(&b)?;
            let rt = lineage_root(&t)?;
            dht.link(rb, rt, LinkKind::MyEntryToMyEntry)
        },
        _ => Err(ZomeError::NotFound),
    }
}

/// The links that leave the lineage root of the entry at `base_address`.
pub fn get_linked_my_entries(dht: &Dht, base_address: Address) -> (r: Result<Vec<Link>, ZomeError>)
    requires
        dht@.wf(),
    ensures
        r matches Ok(v) ==> linked_my_entries(dht@, base_address) == Ok::<Seq<Link>, ZomeError>(v@),
        r matches Err(e) ==> linked_my_entries(dht@, base_address) == Err::<Seq<Link>, ZomeError>(e),
{
    let base = match dht.get(base_address) {
        Some(b) => b,
        None => return Err(ZomeError::NotFound),
    };
    let root = lineage_root(&base)?;
    Ok(dht.get_links(root, LinkKind::MyEntryToMyEntry))
}

/// Store and result after updating the lineage at `address` with each of
/// `entries` in turn, each update starting from the address the previous
/// one returned.
pub open spec fn update_chain(d: DhtView, address: Address, entries: Seq<MyEntry>) -> (
    DhtView,
    Result<Address, ZomeError>,
)
    decreases entries.len(),
{
    if entries.len() == 0 {
        (d, Ok(address))
    } else {
        let (d1, r) = update_chain(d, address, entries.drop_last());
        match r {
            Ok(a) => update_my_entry_effect(d1, entries.last(), a),
            Err(err) => (d1, Err(err)),
        }
    }
}

/// Reading back what `create_my_entry` returned gives the entry's content,
/// rooted at the first revision, which is the one just before it.
pub proof fn lemma_get_after_create(d: DhtView, entry: MyEntry)
    requires
        d.wf(),
        d.has_room(2),
    ensures
        ({
            let (d2, r) = create_my_entry_effect(d, entry);
            &&& r == Ok::<Address, ZomeError>((d.next_address() + 1) as Address)
            &&& d2.get(r->Ok_0) == Some(Record::My(rooted(entry, d.next_address())))
            &&& d2.get(r->Ok_0)->Some_0.content_view() == entry.content@
            &&& d2.history(r->Ok_0) == Some(seq![d.next_address(), r->Ok_0])
        }),
{
    let first = d.next_address();
    let d1 = d.commit(Record::My(entry));
    crate::store::lemma_commit_wf(d, Record::My(entry));
    let d2 = d1.revise(first, Record::My(rooted(entry, first)));
    assert forall|i: int| 0 <= i < d.revisions.len() implies (#[trigger] d.revisions[i]).origin != first by {}
    crate::store::lemma_lineage_unused(d.revisions, first);
    crate::store::lemma_lineage_after_push(d.revisions, d1.revisions.last(), first);
    crate::store::lemma_lineage_after_push(d1.revisions, d2.revisions.last(), first);
}

/// Updating an entry with its own stored content writes nothing and returns
/// the same address.
pub proof fn lemma_update_unchanged(d: DhtView, entry: MyEntry, address: Address)
    requires
        d.wf(),
        d.get(address) matches Some(Record::My(stored)) && stored.root is Some && stored.content@
            == entry.content@,
    ensures
        update_my_entry_effect(d, entry, address) == (d, Ok::<Address, ZomeError>(address)),
{
}

/// However many updates follow `create_my_entry`, each of them succeeds, and
/// every revision written from the creation on (the one it returned, and
/// each that an update wrote) holds the root set at creation: the address of
/// the first revision.
pub proof fn lemma_updates_keep_root(d: DhtView, entry: MyEntry, entries: Seq<MyEntry>)
    requires
        d.wf(),
        d.has_room(entries.len() + 2),
    ensures
        ({
            let (d1, r1) = create_my_entry_effect(d, entry);
            let (d2, r2) = update_chain(d1, r1->Ok_0, entries);
            &&& r2 is Ok
            &&& d.next_address() < r2->Ok_0 < d2.revisions.len()
            &&& forall|i: int|
                d.next_address() < i < d2.revisions.len() ==> is_rooted_at((#[trigger] d2.revisions[i]).record, d.next_address())
        }),
{
    lemma_get_after_create(d, entry);
    let (d1, r1) = create_my_entry_effect(d, entry);
    crate::store::lemma_commit_wf(d, Record::My(entry));
    crate::store::lemma_revise_wf(
        d.commit(Record::My(entry)),
        d.next_address(),
        Record::My(rooted(entry, d.next_address())),
    );
    lemma_chain_keeps_root(d1, r1->Ok_0, entries, d.next_address(), d.next_address() + 1);
}

proof fn lemma_chain_keeps_root(d: DhtView, a: Address, entries: Seq<MyEntry>, root: Address, from: int)
    requires
        d.wf(),
        d.has_room(entries.len()),
        0 <= from <= a < d.revisions.len(),
        forall|i: int|
            from <= i < d.revisions.len() ==> is_rooted_at((#[trigger] d.revisions[i]).record, root),
    ensures
        ({
            let (d2, r) = update_chain(d, a, entries);
            &&& r is Ok
            &&& d2.wf()
            &&& d2.revisions.len() <= d.revisions.len() + entries.len()
            &&& d2.links == d.links
            &&& from <= r->Ok_0 < d2.revisions.len()
            &&& forall|i: int|
                from <= i < d2.revisions.len() ==> is_rooted_at((#[trigger] d2.revisions[i]).record, root)
        }),
    decreases entries.len(),
{
    if entries.len() > 0 {
        lemma_chain_keeps_root(d, a, entries.drop_last(), root, from);
        let (d1, r) = update_chain(d, a, entries.drop_last());
        let a1 = r->Ok_0;
        let stored = d1.get(a1)->Some_0;
        assert(d1.revisions[a1 as int].record == stored);
        let next = update_plan(entries.last(), stored);
        if let Ok(Some(n)) = next {
            crate::store::lemma_revise_wf(d1, a1, Record::My(n));
            let d2 = d1.revise(a1, Record::My(n));
            assert forall|i: int| from <= i < d2.revisions.len() implies is_rooted_at((#[trigger] d2.revisions[i]).record, root) by {
                if i < d1.revisions.len() {
                    assert(d2.revisions[i] == d1.revisions[i]);
                }
            }
        }
    }
}

/// A link goes one way: `link_my_entries(a, b)` adds exactly one link, from
/// the root of `a` to the root of `b`; it is then among the links of `a`, and
/// where the roots differ it is not among those of `b`.
pub proof fn lemma_link_directed(d: DhtView, a: Address, b: Address)
    requires
        d.wf(),
        link_my_entries_effect(d, a, b).1 is Ok,
    ensures
        ({
            let (d2, _) = link_my_entries_effect(d, a, b);
            let ra = root_of(d.get(a)->Some_0)->Ok_0;
            let rb = root_of(d.get(b)->Some_0)->Ok_0;
            let l = Link { base: ra, target: rb, kind: LinkKind::MyEntryToMyEntry };
            &&& d2.links == d.links.push(l)
            &&& linked_my_entries(d2, a) == Ok::<Seq<Link>, ZomeError>(linked_my_entries(d, a)->Ok_0.push(l))
            &&& ra != rb ==> linked_my_entries(d2, b) == linked_my_entries(d, b)
            &&& ra != rb ==> !linked_my_entries(d2, b)->Ok_0.contains(l)
        }),
{
    let ra = root_of(d.get(a)->Some_0)->Ok_0;
    let rb = root_of(d.get(b)->Some_0)->Ok_0;
    let l = Link { base: ra, target: rb, kind: LinkKind::MyEntryToMyEntry };
    crate::store::lemma_links_after_push(d.links, l, ra, LinkKind::MyEntryToMyEntry);
    crate::store::lemma_links_after_push(d.links, l, rb, LinkKind::MyEntryToMyEntry);
    if ra != rb {
        crate::store::lemma_links_matching(d.links, rb, LinkKind::MyEntryToMyEntry, d.revisions.len());
        let ls = d.links_from(rb, LinkKind::MyEntryToMyEntry);
        if ls.contains(l) {
            let k = choose|k: int| 0 <= k < ls.len() && ls[k] == l;
            assert(ls[k].base == rb);
        }
    }
}

/// An address that holds no record reads as empty, and updating it fails
/// with `NotFound` and writes nothing.
pub proof fn lemma_missing_address(d: DhtView, entry: MyEntry, address: Address)
    requires
        !d.present(address),
    ensures
        d.get(address) is None,
        update_my_entry_effect(d, entry, address) == (d, Err::<Address, ZomeError>(ZomeError::NotFound)),
{
}

} // verus!
