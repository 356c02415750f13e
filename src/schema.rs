use vstd::prelude::*;
use crate::entries::{Address, LinkKind, Record, ZomeError};

verus! {

/// Who may read the entries of a schema.
#[derive(Clone, Copy, PartialEq, Eq, Structural, Debug)]
pub enum Sharing {
    Public,
}

/// An outgoing relation that a schema declares.
pub struct LinkDef {
    /// The schema at the other end.
    pub target_type: String,
    pub link_type: LinkKind,
}

/// A schema that the host registers: its name, sharing policy and outgoing
/// relations. Its entries are validated by `validate_entry`, its links by
/// `LinkDef::validate_link`.
pub struct EntryDef {
    pub name: String,
    pub description: String,
    pub sharing: Sharing,
    pub links: Vec<LinkDef>,
}

impl LinkKind {
    /// The name under which the host knows this relation.
    pub fn link_type_name(&self) -> (r: String)
        ensures
            *self == LinkKind::MyEntryToMyEntry ==> r@ == "my_entry_to_my_entry"@,
            *self == LinkKind::ParentToChild ==> r@ == "parent_to_child"@,
    {
        match self {
            LinkKind::MyEntryToMyEntry => String::from_str("my_entry_to_my_entry"),
            LinkKind::ParentToChild => String::from_str("parent_to_child"),
        }
    }
}

impl EntryDef {
    /// The schema's entry validation: every entry is accepted as it is.
    pub fn validate_entry(&self, rec: &Record) -> (r: Result<(), ZomeError>)
        ensures
            r is Ok,
    {
        Ok(())
    }
}

impl LinkDef {
    /// The relation's link validation: every link is accepted as it is.
    pub fn validate_link(&self, base: Address, target: Address) -> (r: Result<(), ZomeError>)
        ensures
            r is Ok,
    {
        Ok(())
    }
}

/// The schema of `MyEntry`, with its relation to other `MyEntry` lineages.
pub fn my_entry_def() -> (r: EntryDef)
    ensures
        r.name@ == "my_entry"@,
        r.sharing == Sharing::Public,
        r.links@.len() == 1,
        r.links@[0].target_type@ == "my_entry"@,
        r.links@[0].link_type == LinkKind::MyEntryToMyEntry,
{
    let mut links: Vec<LinkDef> = Vec::new();
    links.push(LinkDef { target_type: String::from_str("my_entry"), link_type: LinkKind::MyEntryToMyEntry });
    EntryDef {
        name: String::from_str("my_entry"),
        description: String::from_str("this is a same entry defintion"),
        sharing: Sharing::Public,
        links,
    }
}

/// The schema of `MyParentEntry`, with its containment relation to children.
pub fn my_parent_entry_def() -> (r: EntryDef)
    ensures
        r.name@ == "my_parent_entry"@,
        r.sharing == Sharing::Public,
        r.links@.len() == 1,
        r.links@[0].target_type@ == "my_child_entry"@,
        r.links@[0].link_type == LinkKind::ParentToChild,
{
    let mut links: Vec<LinkDef> = Vec::new();
    links.push(LinkDef { target_type: String::from_str("my_child_entry"), link_type: LinkKind::ParentToChild });
    EntryDef {
        name: String::from_str("my_parent_entry"),
        description: String::from_str("this is a parent entry definition"),
        sharing: Sharing::Public,
        links,
    }
}

/// The schema of `MyChildEntry`: a leaf with no relations of its own.
pub fn my_child_entry_def() -> (r: EntryDef)
    ensures
        r.name@ == "my_child_entry"@,
        r.sharing == Sharing::Public,
        r.links@.len() == 0,
{
    EntryDef {
        name: String::from_str("my_child_entry"),
        description: String::from_str("this is a child entry definition"),
        sharing: Sharing::Public,
        links: Vec::new(),
    }
}

/// The zome's start-up hook: nothing to set up.
pub fn init() -> (r: Result<(), ZomeError>)
    ensures
        r is Ok,
{
    Ok(())
}

/// Accepts every agent that joins.
pub fn validate_agent(agent_key: &String) -> (r: Result<(), ZomeError>)
    ensures
        r is Ok,
{
    Ok(())
}

} // verus!
