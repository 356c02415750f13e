use vstd::prelude::*;
use crate::entries::{Address, LinkKind, Record, ZomeError};

verus! {

/// One revision in the store: the record and the address of the first
/// revision of its lineage.
pub struct Revision {
    pub record: Record,
    pub origin: Address,
}

/// A directed, typed edge between two addresses.
#[derive(Clone, Copy, PartialEq, Eq, Structural, Debug)]
pub struct Link {
    pub base: Address,
    pub target: Address,
    pub kind: LinkKind,
}

/// The store as mathematics: revisions in order of writing (a revision's
/// address is its index), and links in order of creation.
pub ghost struct DhtView {
    pub revisions: Seq<Revision>,
    pub links: Seq<Link>,
}

/// The links of `links` that leave `base` with kind `kind`, in order.
pub open spec fn links_matching(links: Seq<Link>, base: Address, kind: LinkKind) -> Seq<Link>
    decreases links.len(),
{
    if links.len() == 0 {
        Seq::empty()
    } else {
        let before = links_matching(links.drop_last(), base, kind);
        let l = links.last();
        if l.base == base && l.kind == kind {
            before.push(l)
        } else {
            before
        }
    }
}

/// The addresses of the revisions of `revisions` whose lineage starts at
/// `origin`, in order of writing.
pub open spec fn lineage(revisions: Seq<Revision>, origin: Address) -> Seq<Address>
    decreases revisions.len(),
{
    if revisions.len() == 0 {
        Seq::empty()
    } else {
        let before = lineage(revisions.drop_last(), origin);
        if revisions.last().origin == origin {
            before.push((revisions.len() - 1) as Address)
        } else {
            before
        }
    }
}

impl DhtView {
    /// Each revision's origin is an earlier or equal revision that is its own
    /// origin, and every link joins two stored revisions.
    pub open spec fn wf(self) -> bool {
        &&& self.revisions.len() <= u64::MAX
        &&& forall|i: int|
            0 <= i < self.revisions.len() ==> {
                let o = #[trigger] self.revisions[i].origin;
                &&& o <= i
                &&& self.revisions[o as int].origin == o
            }
        &&& forall|j: int|
            0 <= j < self.links.len() ==> {
                &&& (#[trigger] self.links[j]).base < self.revisions.len()
                &&& self.links[j].target < self.revisions.len()
            }
    }

    pub open spec fn present(self, a: Address) -> bool {
        a < self.revisions.len()
    }

    /// The address that the next write receives.
    pub open spec fn next_address(self) -> Address {
        self.revisions.len() as Address
    }

    pub open spec fn origin_of(self, a: Address) -> Address {
        self.revisions[a as int].origin
    }

    /// The record stored at `a`, if any.
    pub open spec fn get(self, a: Address) -> Option<Record> {
        if self.present(a) {
            Some(self.revisions[a as int].record)
        } else {
            None
        }
    }

    /// A new lineage whose first revision holds `rec`.
    pub open spec fn commit(self, rec: Record) -> DhtView {
        DhtView {
            revisions: self.revisions.push(Revision { record: rec, origin: self.next_address() }),
            links: self.links,
        }
    }

    /// A new revision of the lineage of `a`, holding `rec`.
    pub open spec fn revise(self, a: Address, rec: Record) -> DhtView {
        DhtView {
            revisions: self.revisions.push(Revision { record: rec, origin: self.origin_of(a) }),
            links: self.links,
        }
    }

    /// The store and result after updating the record at `a`.
    pub open spec fn update(self, a: Address, rec: Record) -> (DhtView, Result<Address, ZomeError>) {
        if self.present(a) {
            (self.revise(a, rec), Ok(self.next_address()))
        } else {
            (self, Err(ZomeError::NotFound))
        }
    }

    /// The store and result after linking `base` to `target`; the result is
    /// the new link's address.
    pub open spec fn link(self, base: Address, target: Address, kind: LinkKind) -> (
        DhtView,
        Result<Address, ZomeError>,
    ) {
        if self.present(base) && self.present(target) {
            (
                DhtView {
                    revisions: self.revisions,
                    links: self.links.push(Link { base, target, kind }),
                },
                Ok(self.links.len() as Address),
            )
        } else {
            (self, Err(ZomeError::NotFound))
        }
    }

    pub open spec fn links_from(self, base: Address, kind: LinkKind) -> Seq<Link> {
        links_matching(self.links, base, kind)
    }

    /// The revision chain of the lineage that holds `a`, if `a` is stored.
    pub open spec fn history(self, a: Address) -> Option<Seq<Address>> {
        if self.present(a) {
            Some(lineage(self.revisions, self.origin_of(a)))
        } else {
            None
        }
    }

    /// Room for `n` more revisions and links, as addresses and vector lengths.
    pub open spec fn has_room(self, n: nat) -> bool {
        &&& self.revisions.len() + n < usize::MAX
        &&& self.revisions.len() + n < u64::MAX
        &&& self.links.len() + n < usize::MAX
        &&& self.links.len() + n < u64::MAX
    }
}

pub proof fn lemma_commit_wf(d: DhtView, rec: Record)
    requires
        d.wf(),
        d.has_room(1),
    ensures
        d.commit(rec).wf(),
{
    let d2 = d.commit(rec);
    assert forall|i: int| 0 <= i < d2.revisions.len() implies {
        let o = #[trigger] d2.revisions[i].origin;
        &&& o <= i
        &&& d2.revisions[o as int].origin == o
    } by {
        if i < d.revisions.len() {
            assert(d2.revisions[i] == d.revisions[i]);
        }
    }
}

pub proof fn lemma_revise_wf(d: DhtView, a: Address, rec: Record)
    requires
        d.wf(),
        d.has_room(1),
        d.present(a),
    ensures
        d.revise(a, rec).wf(),
{
    let d2 = d.revise(a, rec);
    assert forall|i: int| 0 <= i < d2.revisions.len() implies {
        let o = #[trigger] d2.revisions[i].origin;
        &&& o <= i
        &&& d2.revisions[o as int].origin == o
    } by {
        if i < d.revisions.len() {
            assert(d2.revisions[i] == d.revisions[i]);
        } else {
            assert(d.revisions[a as int].origin == d.origin_of(a));
        }
    }
}

pub proof fn lemma_link_wf(d: DhtView, base: Address, target: Address, kind: LinkKind)
    requires
        d.wf(),
    ensures
        d.link(base, target, kind).0.wf(),
{
    let d2 = d.link(base, target, kind).0;
    assert forall|j: int| 0 <= j < d2.links.len() implies {
        &&& (#[trigger] d2.links[j]).base < d2.revisions.len()
        &&& d2.links[j].target < d2.revisions.len()
    } by {
        if j < d.links.len() {
            assert(d2.links[j] == d.links[j]);
        }
    }
}

/// Every link that `links_matching` keeps leaves `base` with kind `kind` and
/// reaches a target that all of `links` bound; there are no more of them than
/// links.
pub proof fn lemma_links_matching(links: Seq<Link>, base: Address, kind: LinkKind, n: nat)
    requires
        forall|j: int| 0 <= j < links.len() ==> (#[trigger] links[j]).target < n,
    ensures
        links_matching(links, base, kind).len() <= links.len(),
        forall|k: int|
            0 <= k < links_matching(links, base, kind).len() ==> {
                let l = #[trigger] links_matching(links, base, kind)[k];
                &&& l.base == base
                &&& l.kind == kind
                &&& l.target < n
            },
    decreases links.len(),
{
    if links.len() > 0 {
        let rest = links.drop_last();
        assert forall|j: int| 0 <= j < rest.len() implies (#[trigger] rest[j]).target < n by {
            assert(rest[j] == links[j]);
        }
        lemma_links_matching(rest, base, kind, n);
        assert(links.last() == links[links.len() - 1]);
    }
}

/// Adding a link leaves the links of every other base or kind as they were.
pub proof fn lemma_links_after_push(links: Seq<Link>, l: Link, base: Address, kind: LinkKind)
    ensures
        links_matching(links.push(l), base, kind) == if l.base == base && l.kind == kind {
            links_matching(links, base, kind).push(l)
        } else {
            links_matching(links, base, kind)
        },
{
    assert(links.push(l).drop_last() =~= links);
}

/// Filtering a concatenation filters each part.
pub proof fn lemma_links_matching_append(a: Seq<Link>, b: Seq<Link>, base: Address, kind: LinkKind)
    ensures
        links_matching(a + b, base, kind) == links_matching(a, base, kind) + links_matching(b, base, kind),
    decreases b.len(),
{
    if b.len() == 0 {
        assert(a + b =~= a);
        assert(links_matching(a, base, kind) + Seq::<Link>::empty() =~= links_matching(a, base, kind));
    } else {
        assert((a + b).drop_last() =~= a + b.drop_last());
        assert((a + b).last() == b.last());
        lemma_links_matching_append(a, b.drop_last(), base, kind);
        let x = links_matching(a, base, kind);
        let y = links_matching(b.drop_last(), base, kind);
        assert((x + y).push(b.last()) =~= x + y.push(b.last()));
    }
}

/// Links that all leave `base` with kind `kind` are all kept; where none do,
/// none are.
pub proof fn lemma_links_matching_uniform(b: Seq<Link>, base: Address, kind: LinkKind)
    ensures
        (forall|k: int| 0 <= k < b.len() ==> (#[trigger] b[k]).base == base && b[k].kind == kind)
            ==> links_matching(b, base, kind) == b,
        (forall|k: int| 0 <= k < b.len() ==> (#[trigger] b[k]).base != base)
            ==> links_matching(b, base, kind) == Seq::<Link>::empty(),
    decreases b.len(),
{
    if b.len() > 0 {
        let rest = b.drop_last();
        lemma_links_matching_uniform(rest, base, kind);
        assert(b.last() == b[b.len() - 1]);
        if forall|k: int| 0 <= k < b.len() ==> (#[trigger] b[k]).base == base && b[k].kind == kind {
            assert forall|k: int| 0 <= k < rest.len() implies (#[trigger] rest[k]).base == base
                && rest[k].kind == kind by {
                assert(rest[k] == b[k]);
            }
            assert(rest.push(b.last()) =~= b);
        }
        if forall|k: int| 0 <= k < b.len() ==> (#[trigger] b[k]).base != base {
            assert forall|k: int| 0 <= k < rest.len() implies (#[trigger] rest[k]).base != base by {
                assert(rest[k] == b[k]);
            }
        }
    }
}

/// A lineage that no revision starts is empty.
pub proof fn lemma_lineage_unused(revisions: Seq<Revision>, origin: Address)
    requires
        forall|i: int| 0 <= i < revisions.len() ==> (#[trigger] revisions[i]).origin != origin,
    ensures
        lineage(revisions, origin) == Seq::<Address>::empty(),
    decreases revisions.len(),
{
    if revisions.len() > 0 {
        let rest = revisions.drop_last();
        assert forall|i: int| 0 <= i < rest.len() implies (#[trigger] rest[i]).origin != origin by {
            assert(rest[i] == revisions[i]);
        }
        lemma_lineage_unused(rest, origin);
        assert(revisions.last() == revisions[revisions.len() - 1]);
    }
}

/// Writing a revision extends its own lineage by its address and leaves the
/// others as they were.
pub proof fn lemma_lineage_after_push(revisions: Seq<Revision>, r: Revision, origin: Address)
    ensures
        lineage(revisions.push(r), origin) == if r.origin == origin {
            lineage(revisions, origin).push(revisions.len() as Address)
        } else {
            lineage(revisions, origin)
        },
{
    assert(revisions.push(r).drop_last() =~= revisions);
}

/// An in-memory store of revisions and links, standing for the host's
/// content store.
pub struct Dht {
    pub revisions: Vec<Revision>,
    pub links: Vec<Link>,
}

impl View for Dht {
    type V = DhtView;

    open spec fn view(&self) -> DhtView {
        DhtView { revisions: self.revisions@, links: self.links@ }
    }
}

impl Dht {
    /// An empty store.
    pub fn new() -> (r: Dht)
        ensures
            r@.revisions.len() == 0,
            r@.links.len() == 0,
            r@.wf(),
    {
        Dht { revisions: Vec::new(), links: Vec::new() }
    }

    /// Starts a new lineage holding `rec`; returns its address.
    pub fn commit(&mut self, rec: Record) -> (r: Address)
        requires
            old(self)@.wf(),
            old(self)@.has_room(1),
        ensures
            final(self)@ == old(self)@.commit(rec),
            r == old(self)@.next_address(),
            final(self)@.wf(),
    {
        proof {
            lemma_commit_wf(self@, rec);
        }
        let a = self.revisions.len() as Address;
        self.revisions.push(Revision { record: rec, origin: a });
        a
    }

    /// Writes `rec` as a new revision of the lineage of `a`.
    pub fn update(&mut self, a: Address, rec: Record) -> (r: Result<Address, ZomeError>)
        requires
            old(self)@.wf(),
            old(self)@.has_room(1),
        ensures
            (final(self)@, r) == old(self)@.update(a, rec),
            final(self)@.wf(),
    {
        if a >= self.revisions.len() as Address {
            return Err(ZomeError::NotFound);
        }
        proof {
            lemma_revise_wf(self@, a, rec);
        }
        let origin = self.revisions[a as usize].origin;
        let n = self.revisions.len() as Address;
        self.revisions.push(Revision { record: rec, origin });
        Ok(n)
    }

    /// The record stored at `a`, if any.
    pub fn get(&self, a: Address) -> (r: Option<Record>)
        requires
            self@.wf(),
        ensures
            r == self@.get(a),
    {
        if a < self.revisions.len() as Address {
            Some(self.revisions[a as usize].record.clone())
        } else {
            None
        }
    }

    /// Creates a link from `base` to `target`; both must be stored.
    pub fn link(&mut self, base: Address, target: Address, kind: LinkKind) -> (r: Result<Address, ZomeError>)
        requires
            old(self)@.wf(),
            old(self)@.has_room(1),
        ensures
            (final(self)@, r) == old(self)@.link(base, target, kind),
            final(self)@.wf(),
    {
        let n = self.revisions.len() as Address;
        if base >= n || target >= n {
            return Err(ZomeError::NotFound);
        }
        proof {
            lemma_link_wf(self@, base, target, kind);
        }
        let id = self.links.len() as Address;
        self.links.push(Link { base, target, kind });
        Ok(id)
    }

    /// The links that leave `base` with kind `kind`, in order of creation.
    pub fn get_links(&self, base: Address, kind: LinkKind) -> (r: Vec<Link>)
        ensures
            r@ == self@.links_from(base, kind),
    {
        let mut out: Vec<Link> = Vec::new();
        let mut i: usize = 0;
        while i < self.links.len()
            invariant
                i <= self.links@.len(),
                out@ == links_matching(self.links@.take(i as int), base, kind),
            decreases self.links@.len() - i,
        {
            let l = self.links[i];
            assert(self.links@.take(i + 1).drop_last() =~= self.links@.take(i as int));
            if l.base == base && l.kind == kind {
                out.push(l);
            }
            i += 1;
        }
        assert(self.links@.take(i as int) =~= self.links@);
        out
    }

    /// The revision chain of the lineage that holds `a`, oldest first; `None`
    /// where `a` is not stored.
    pub fn history(&self, a: Address) -> (r: Option<Vec<Address>>)
        requires
            self@.wf(),
        ensures
            r matches Some(v) ==> self@.history(a) == Some(v@),
            r is None ==> self@.history(a) is None,
    {
        if a >= self.revisions.len() as Address {
            return None;
        }
        let origin = self.revisions[a as usize].origin;
        let mut out: Vec<Address> = Vec::new();
        let mut i: usize = 0;
        while i < self.revisions.len()
            invariant
                i <= self.revisions@.len(),
                self.revisions@.len() <= u64::MAX,
                origin == self@.origin_of(a),
                out@ == lineage(self.revisions@.take(i as int), origin),
            decreases self.revisions@.len() - i,
        {
            assert(self.revisions@.take(i + 1).drop_last() =~= self.revisions@.take(i as int));
            if self.revisions[i].origin == origin {
                out.push(i as Address);
            }
            i += 1;
        }
        assert(self.revisions@.take(i as int) =~= self.revisions@);
        Some(out)
    }
}

} // verus!
