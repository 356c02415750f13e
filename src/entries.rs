use vstd::prelude::*;

verus! {

/// An address of a record revision, or of a link, in the host's store.
pub type Address = u64;

/// An entry that remembers the address of the first revision of its lineage.
#[derive(Debug)]
pub struct MyEntry {
    pub content: String,
    pub root: Option<Address>,
}

/// A parent entry; it owns child entries through containment links.
#[derive(Debug)]
pub struct MyParentEntry {
    pub content: String,
}

/// A child entry; a leaf with no outgoing links.
#[derive(Debug)]
pub struct MyChildEntry {
    pub content: String,
}

/// One stored record, tagged with the schema it was committed under.
#[derive(Debug)]
pub enum Record {
    My(MyEntry),
    Parent(MyParentEntry),
    Child(MyChildEntry),
}

/// The typed relations between records.
#[derive(Clone, Copy, PartialEq, Eq, Structural, Debug)]
pub enum LinkKind {
    MyEntryToMyEntry,
    ParentToChild,
}

/// Why a zome call failed.
#[derive(Clone, Copy, PartialEq, Eq, Structural, Debug)]
pub enum ZomeError {
    /// The requested address holds no record.
    NotFound,
    /// A lineage entry was found without its root pointer.
    RootUnset,
    /// The record at the address is not a `MyEntry`.
    NotMyEntry,
    /// The parent record could not be fetched.
    Internal,
}

impl ZomeError {
    /// The message that a caller of the zome sees.
    pub fn message(&self) -> (r: String)
        ensures
            *self == ZomeError::NotFound ==> r@ == "not found"@,
            *self == ZomeError::RootUnset ==> r@ == "corrupt lineage: root unset"@,
            *self == ZomeError::NotMyEntry ==> r@ == "Could not construct MyEntry from Entry"@,
            *self == ZomeError::Internal ==> r@ == "Failed to get latest entry"@,
    {
        match self {
            ZomeError::NotFound => String::from_str("not found"),
            ZomeError::RootUnset => String::from_str("corrupt lineage: root unset"),
            ZomeError::NotMyEntry => String::from_str("Could not construct MyEntry from Entry"),
            ZomeError::Internal => String::from_str("Failed to get latest entry"),
        }
    }
}

impl MyEntry {
    /// A fresh entry: the given content, no root yet.
    pub fn new(content: String) -> (r: MyEntry)
        ensures
            r.content == content,
            r.root is None,
    {
        MyEntry { content, root: None }
    }

    /// The same content, with `root` set to the given lineage origin.
    pub fn with_root(&self, root: Address) -> (r: MyEntry)
        ensures
            r.content == self.content,
            r.root == Some(root),
    {
        MyEntry { content: self.content.clone(), root: Some(root) }
    }
}

impl MyEntry {
    /// The `MyEntry` that a stored record holds.
    pub fn from_record(rec: Record) -> (r: Result<MyEntry, ZomeError>)
        ensures
            rec matches Record::My(e) ==> r == Ok::<MyEntry, ZomeError>(e),
            !(rec is My) ==> r == Err::<MyEntry, ZomeError>(ZomeError::NotMyEntry),
    {
        match rec {
            Record::My(e) => Ok(e),
            _ => Err(ZomeError::NotMyEntry),
        }
    }
}

impl MyParentEntry {
    pub fn new(content: String) -> (r: MyParentEntry)
        ensures
            r.content == content,
    {
        MyParentEntry { content }
    }
}

impl MyChildEntry {
    pub fn new(content: String) -> (r: MyChildEntry)
        ensures
            r.content == content,
    {
        MyChildEntry { content }
    }
}

impl Clone for MyEntry {
    fn clone(&self) -> (r: Self)
        ensures
            r == *self,
    {
        MyEntry { content: self.content.clone(), root: self.root }
    }
}

impl Clone for MyParentEntry {
    fn clone(&self) -> (r: Self)
        ensures
            r == *self,
    {
        MyParentEntry { content: self.content.clone() }
    }
}

impl Clone for MyChildEntry {
    fn clone(&self) -> (r: Self)
        ensures
            r == *self,
    {
        MyChildEntry { content: self.content.clone() }
    }
}

impl Clone for Record {
    fn clone(&self) -> (r: Self)
        ensures
            r == *self,
    {
        match self {
            Record::My(e) => Record::My(e.clone()),
            Record::Parent(e) => Record::Parent(e.clone()),
            Record::Child(e) => Record::Child(e.clone()),
        }
    }
}

impl Record {
    /// The content text of the record, whatever its schema.
    pub open spec fn content_view(&self) -> Seq<char> {
        match self {
            Record::My(e) => e.content@,
            Record::Parent(e) => e.content@,
            Record::Child(e) => e.content@,
        }
    }
}

} // verus!
