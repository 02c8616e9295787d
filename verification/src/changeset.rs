//! The unit of work the front end submits: a main record with its action,
//! and the related one-one, has-many and indirect (many-to-many) entries.

use vstd::prelude::*;
use crate::record::Record;
use crate::text::str_eq;

verus! {

/// The action tag attached to a record or to a row collection, declaring
/// which SQL operation family applies.
///
/// `CreateNew` and `Edited` apply to single records (main, one-one);
/// `Unlink`, `LinkNew`, `LinkExisting` and `Edited` apply to row collections
/// (has-many, indirect).
#[derive(Clone, Copy, Debug, PartialEq, Eq, Structural)]
pub enum RecordAction {
    CreateNew,
    Edited,
    Unlink,
    LinkNew,
    LinkExisting,
}

/// The full set of pending mutations submitted for one logical save.
#[derive(Debug)]
pub struct RecordChangeset {
    /// The action on the main record: `CreateNew` or `Edited`.
    pub action: RecordAction,
    /// The main record itself.
    pub record: Record,
    /// One-one relations: `(child table name, record)`, the record absent
    /// when the user left the related row untouched.
    pub one_ones: Vec<(String, Option<Record>)>,
    /// Has-many relations: `(child table name, action, rows)`.
    pub has_many: Vec<(String, RecordAction, Vec<Record>)>,
    /// Indirect relations: `(indirect table name, linker table name, action,
    /// rows)`.
    pub indirect: Vec<(String, String, RecordAction, Vec<Record>)>,
}

/// The flat bulk case: rows to insert and rows to update against single
/// tables, with no relationship traversal.
#[derive(Debug)]
pub struct SaveContainer {
    /// `(table name, rows to insert)`.
    pub for_insert: (String, Vec<Record>),
    /// `(table name, rows to update)`.
    pub for_update: (String, Vec<Record>),
}

/// One tab of the window: the named table is shown under the main table.
#[derive(Debug, PartialEq, Eq)]
pub struct Tab {
    pub table_name: String,
}

/// The window the changeset was edited in: which tables stand in one-one,
/// has-many and indirect relation to the main table.
#[derive(Debug)]
pub struct Window {
    pub one_one_tabs: Vec<Tab>,
    pub has_many_tabs: Vec<Tab>,
    pub indirect_tabs: Vec<Tab>,
}

/// Whether some tab in `tabs` names `name`.
pub open spec fn spec_has_tab(tabs: Seq<Tab>, name: Seq<char>) -> bool {
    exists|i: int| 0 <= i < tabs.len() && tabs[i].table_name@ == name
}

/// Whether some tab in `tabs` names `name`.
pub fn has_tab(tabs: &Vec<Tab>, name: &str) -> (r: bool)
    ensures
        r == spec_has_tab(tabs@, name@),
{
    let n = tabs.len();
    let mut i: usize = 0;
    while i < n
        invariant
            n == tabs@.len(),
            i <= n,
            forall|k: int| 0 <= k < i ==> tabs@[k].table_name@ != name@,
        decreases n - i,
    {
        if str_eq(tabs[i].table_name.as_str(), name) {
            return true;
        }
        i += 1;
    }
    false
}

} // verus!
