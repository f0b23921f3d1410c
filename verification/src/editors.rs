//! The generic entity-list editor: a uniform container abstraction over
//! heterogeneous record kinds, with case-insensitive search, appending of
//! fresh records, two-phase deletion (a soft close followed by a deferred
//! compaction), and version-counter dirty tracking.
//!
//! Dirty tracking is monotonic within a save cycle: every structural
//! change bumps the version counter, a frame that changes nothing leaves
//! it alone, and only an explicit save aligns the saved version with it
//! (`lemma_dirty_monotonic`).

use vstd::prelude::*;

use crate::text::{chars_contain_ci, contains_ci, str_chars};

verus! {

/// Relies on uuid::Uuid::new_v4 and Uuid::as_u128: a freshly generated
/// random 128-bit identity. Nothing is promised of the value: it depends
/// on the process's randomness.
#[verifier::external_body]
pub(crate) fn fresh_uuid() -> u128 {
    uuid::Uuid::new_v4().as_u128()
}

/// One editable record: it has a display name, a transient identity for
/// widget keying, an "is new" notion (an empty name, since unnamed
/// records cannot have come from disk), and a soft-delete flag.
pub trait ListItem: Sized {
    /// The record's display name.
    spec fn name_spec(&self) -> Seq<char>;

    /// Whether the record is still open (not soft-deleted).
    spec fn open_spec(&self) -> bool;

    /// The record's transient identity.
    spec fn uuid_spec(&self) -> u128;

    /// Soft-deletes the record; the owning list drops it at the next
    /// compaction.
    fn close(&mut self)
        ensures
            !final(self).open_spec(),
            final(self).name_spec() == old(self).name_spec(),
            final(self).uuid_spec() == old(self).uuid_spec(),
    ;

    /// Whether the record is freshly created and unnamed.
    fn is_new(&self) -> (r: bool)
        ensures
            r == (self.name_spec().len() == 0),
    ;

    /// The record's transient identity.
    fn uuid(&self) -> (r: u128)
        ensures
            r == self.uuid_spec(),
    ;

    /// The record's display name.
    fn name(&self) -> (r: &String)
        ensures
            r@ == self.name_spec(),
    ;
}

/// Whether an editor has changes that no save has covered yet.
pub open spec fn edits_pending<E: EditorList>(e: E) -> bool {
    e.version_spec() != e.saved_version_spec()
}

/// The open records of a prefix of a sequence, in order: what a
/// compaction pass retains from the first `i` records.
pub open spec fn keep_open<T: ListItem>(s: Seq<T>, i: int) -> Seq<T>
    decreases i,
{
    if i <= 0 {
        Seq::empty()
    } else if s[i - 1].open_spec() {
        keep_open(s, i - 1).push(s[i - 1])
    } else {
        keep_open(s, i - 1)
    }
}

/// An ordered list of records of one kind, with a search filter, a
/// version counter for dirty tracking, and a visibility flag.
pub trait EditorList: Sized {
    type Item: ListItem;

    /// The records, in insertion order.
    spec fn entries_spec(&self) -> Seq<Self::Item>;

    /// The transient search string.
    spec fn search_spec(&self) -> Seq<char>;

    /// The count of structural changes so far.
    spec fn version_spec(&self) -> u64;

    /// The value of the change counter at the last save.
    spec fn saved_version_spec(&self) -> u64;

    /// Whether the editor's window is shown.
    spec fn shown_spec(&self) -> bool;

    /// The records, in insertion order.
    fn entries(&self) -> (r: &Vec<Self::Item>)
        ensures
            r@ == self.entries_spec(),
    ;

    /// Appends a freshly constructed, unnamed (hence "new") open record,
    /// and counts the change.
    fn add_entry(&mut self)
        requires
            old(self).version_spec() < u64::MAX,
        ensures
            final(self).entries_spec().len() == old(self).entries_spec().len() + 1,
            final(self).entries_spec().subrange(0, old(self).entries_spec().len() as int) == old(
                self,
            ).entries_spec(),
            final(self).entries_spec().last().name_spec().len() == 0,
            final(self).entries_spec().last().open_spec(),
            final(self).version_spec() == old(self).version_spec() + 1,
            final(self).saved_version_spec() == old(self).saved_version_spec(),
            final(self).search_spec() == old(self).search_spec(),
            final(self).shown_spec() == old(self).shown_spec(),
    ;

    /// Soft-deletes the record at an index, and counts the change.
    fn mark_closed(&mut self, i: usize)
        requires
            i < old(self).entries_spec().len(),
            old(self).version_spec() < u64::MAX,
        ensures
            final(self).entries_spec().len() == old(self).entries_spec().len(),
            !final(self).entries_spec()[i as int].open_spec(),
            final(self).entries_spec()[i as int].name_spec() == old(self).entries_spec()[
                i as int
            ].name_spec(),
            final(self).entries_spec()[i as int].uuid_spec() == old(self).entries_spec()[
                i as int
            ].uuid_spec(),
            forall|j: int|
                0 <= j < old(self).entries_spec().len() && j != i
                    ==> final(self).entries_spec()[j] == old(self).entries_spec()[j],
            final(self).version_spec() == old(self).version_spec() + 1,
            final(self).saved_version_spec() == old(self).saved_version_spec(),
            final(self).search_spec() == old(self).search_spec(),
            final(self).shown_spec() == old(self).shown_spec(),
    ;

    /// Renames the record at an index, and counts the change.
    fn set_entry_name(&mut self, i: usize, name: String)
        requires
            i < old(self).entries_spec().len(),
            old(self).version_spec() < u64::MAX,
        ensures
            final(self).entries_spec().len() == old(self).entries_spec().len(),
            final(self).entries_spec()[i as int].name_spec() == name@,
            final(self).entries_spec()[i as int].open_spec() == old(self).entries_spec()[
                i as int
            ].open_spec(),
            final(self).entries_spec()[i as int].uuid_spec() == old(self).entries_spec()[
                i as int
            ].uuid_spec(),
            forall|j: int|
                0 <= j < old(self).entries_spec().len() && j != i
                    ==> final(self).entries_spec()[j] == old(self).entries_spec()[j],
            final(self).version_spec() == old(self).version_spec() + 1,
            final(self).saved_version_spec() == old(self).saved_version_spec(),
            final(self).search_spec() == old(self).search_spec(),
            final(self).shown_spec() == old(self).shown_spec(),
    ;

    /// Drops every soft-deleted record, keeping the open ones in order;
    /// the safe point after a frame's iteration has finished. Counts a
    /// change exactly when a record was dropped.
    fn compact(&mut self)
        requires
            old(self).version_spec() < u64::MAX,
        ensures
            final(self).entries_spec() == keep_open(
                old(self).entries_spec(),
                old(self).entries_spec().len() as int,
            ),
            final(self).version_spec() == (if final(self).entries_spec().len() == old(
                self,
            ).entries_spec().len() {
                old(self).version_spec() as int
            } else {
                old(self).version_spec() + 1
            }),
            final(self).saved_version_spec() == old(self).saved_version_spec(),
            final(self).search_spec() == old(self).search_spec(),
            final(self).shown_spec() == old(self).shown_spec(),
    ;

    /// Whether changes since the last save are pending.
    fn has_changes(&self) -> (r: bool)
        ensures
            r == (self.version_spec() != self.saved_version_spec()),
    ;

    /// Records a successful save: the current state counts as clean.
    fn mark_saved(&mut self)
        ensures
            final(self).saved_version_spec() == final(self).version_spec(),
            final(self).entries_spec() == old(self).entries_spec(),
            final(self).version_spec() == old(self).version_spec(),
            final(self).search_spec() == old(self).search_spec(),
            final(self).shown_spec() == old(self).shown_spec(),
    ;

    /// The transient search string.
    fn search(&self) -> (r: &String)
        ensures
            r@ == self.search_spec(),
    ;

    /// Replaces the search string; the search is not persisted state, so
    /// no change is counted.
    fn set_search(&mut self, s: String)
        ensures
            final(self).search_spec() == s@,
            final(self).entries_spec() == old(self).entries_spec(),
            final(self).version_spec() == old(self).version_spec(),
            final(self).saved_version_spec() == old(self).saved_version_spec(),
            final(self).shown_spec() == old(self).shown_spec(),
    ;

    /// Whether the editor's window is shown.
    fn is_shown(&self) -> (r: bool)
        ensures
            r == self.shown_spec(),
    ;

    /// Shows or hides the editor's window; no change is counted.
    fn set_shown(&mut self, b: bool)
        ensures
            final(self).shown_spec() == b,
            final(self).entries_spec() == old(self).entries_spec(),
            final(self).version_spec() == old(self).version_spec(),
            final(self).saved_version_spec() == old(self).saved_version_spec(),
            final(self).search_spec() == old(self).search_spec(),
    ;
}

/// The indices of the records whose display name contains the editor's
/// search string, case-insensitively and in insertion order; an empty
/// search matches every record.
pub fn filter_entries<E: EditorList>(ed: &E) -> (r: Vec<usize>)
    ensures
        forall|k: int|
            0 <= k < r@.len() ==> (#[trigger] r@[k]) < ed.entries_spec().len() && contains_ci(
                ed.entries_spec()[r@[k] as int].name_spec(),
                ed.search_spec(),
            ),
        forall|k1: int, k2: int| 0 <= k1 < k2 < r@.len() ==> r@[k1] < r@[k2],
        forall|i: int|
            0 <= i < ed.entries_spec().len() && contains_ci(
                (#[trigger] ed.entries_spec()[i]).name_spec(),
                ed.search_spec(),
            ) ==> r@.contains(i as usize),
{
    let query = str_chars(ed.search().as_str());
    let es = ed.entries();
    let mut r: Vec<usize> = Vec::new();
    let mut i: usize = 0;
    while i < es.len()
        invariant
            i <= es@.len(),
            es@ == ed.entries_spec(),
            query@ == ed.search_spec(),
            forall|k: int|
                0 <= k < r@.len() ==> (#[trigger] r@[k]) < i && contains_ci(
                    ed.entries_spec()[r@[k] as int].name_spec(),
                    ed.search_spec(),
                ),
            forall|k1: int, k2: int| 0 <= k1 < k2 < r@.len() ==> r@[k1] < r@[k2],
            forall|j: int|
                0 <= j < i && contains_ci(
                    (#[trigger] ed.entries_spec()[j]).name_spec(),
                    ed.search_spec(),
                ) ==> r@.contains(j as usize),
        decreases es@.len() - i,
    {
        let name_chars = str_chars(es[i].name().as_str());
        if chars_contain_ci(&name_chars, &query) {
            let ghost before = r@;
            r.push(i);
            proof {
                assert(r@[r@.len() - 1] == i);
                assert forall|j: int|
                    0 <= j < i + 1 && contains_ci(
                        (#[trigger] ed.entries_spec()[j]).name_spec(),
                        ed.search_spec(),
                    ) implies r@.contains(j as usize) by {
                    if j < i {
                        let k = choose|k: int| 0 <= k < before.len() && before[k] == j as usize;
                        assert(r@[k] == j as usize);
                    } else {
                        assert(r@[r@.len() - 1] == j as usize);
                    }
                }
            }
        } else {
            proof {
                assert(!contains_ci(ed.entries_spec()[i as int].name_spec(), ed.search_spec()));
            }
        }
        i = i + 1;
    }
    r
}

/// Dirty tracking is monotonic within a save cycle. Starting from a
/// clean editor, any structural change (an added, edited, soft-deleted
/// or compacted-away record bumps the version counter) makes the editor
/// dirty; frames that change nothing keep it dirty; and an explicit
/// save, which aligns the saved version with the current one, is the
/// only step that clears it.
pub proof fn lemma_dirty_monotonic<E: EditorList>(clean: E, changed: E, later: E, saved: E)
    requires
        !edits_pending(clean),
        changed.version_spec() > clean.version_spec(),
        changed.saved_version_spec() == clean.saved_version_spec(),
        later.version_spec() == changed.version_spec(),
        later.saved_version_spec() == changed.saved_version_spec(),
        saved.version_spec() == saved.saved_version_spec(),
    ensures
        edits_pending(changed),
        edits_pending(later),
        !edits_pending(saved),
{
}

/// A free-form item record: a name, a description, and the transient
/// editing state.
pub struct ItemData {
    pub uuid: u128,
    pub name: String,
    pub desc: String,
    pub unsaved_changes: bool,
    pub is_open: bool,
}

impl ItemData {
    /// A fresh, open, unnamed item.
    pub fn new() -> (r: Self)
        ensures
            r.name@.len() == 0,
            r.desc@.len() == 0,
            r.unsaved_changes,
            r.is_open,
    {
        ItemData {
            uuid: fresh_uuid(),
            name: String::new(),
            desc: String::new(),
            unsaved_changes: true,
            is_open: true,
        }
    }
}

impl ListItem for ItemData {
    open spec fn name_spec(&self) -> Seq<char> {
        self.name@
    }

    open spec fn open_spec(&self) -> bool {
        self.is_open
    }

    open spec fn uuid_spec(&self) -> u128 {
        self.uuid
    }

    fn close(&mut self)
        ensures
            *final(self) == (ItemData { is_open: false, ..*old(self) }),
    {
        self.is_open = false;
    }

    fn is_new(&self) -> (r: bool) {
        self.name.as_str().is_empty()
    }

    fn uuid(&self) -> (r: u128) {
        self.uuid
    }

    fn name(&self) -> (r: &String) {
        &self.name
    }
}

/// The list editor for item records.
pub struct ItemEditor {
    items: Vec<ItemData>,
    search_field: String,
    version: u64,
    saved_version: u64,
    shown: bool,
}

impl ItemEditor {
    /// A fresh, clean, shown, empty editor.
    pub fn new() -> (r: Self)
        ensures
            r.entries_spec().len() == 0,
            !edits_pending(r),
            r.search_spec().len() == 0,
            r.shown_spec(),
    {
        ItemEditor {
            items: Vec::new(),
            search_field: String::new(),
            version: 0,
            saved_version: 0,
            shown: true,
        }
    }

    /// Replaces the description of the item at an index, and counts the
    /// change.
    pub fn set_desc(&mut self, i: usize, desc: String)
        requires
            i < old(self).entries_spec().len(),
            old(self).version_spec() < u64::MAX,
        ensures
            final(self).entries_spec().len() == old(self).entries_spec().len(),
            final(self).entries_spec()[i as int].desc@ == desc@,
            final(self).entries_spec()[i as int].name == old(self).entries_spec()[i as int].name,
            final(self).entries_spec()[i as int].is_open == old(self).entries_spec()[
                i as int
            ].is_open,
            forall|j: int|
                0 <= j < old(self).entries_spec().len() && j != i
                    ==> final(self).entries_spec()[j] == old(self).entries_spec()[j],
            final(self).version_spec() == old(self).version_spec() + 1,
            final(self).saved_version_spec() == old(self).saved_version_spec(),
    {
        let e = ItemData {
            uuid: self.items[i].uuid,
            name: self.items[i].name.clone(),
            desc,
            unsaved_changes: true,
            is_open: self.items[i].is_open,
        };
        self.items.set(i, e);
        self.version = self.version + 1;
    }
}

impl EditorList for ItemEditor {
    type Item = ItemData;

    closed spec fn entries_spec(&self) -> Seq<ItemData> {
        self.items@
    }

    closed spec fn search_spec(&self) -> Seq<char> {
        self.search_field@
    }

    closed spec fn version_spec(&self) -> u64 {
        self.version
    }

    closed spec fn saved_version_spec(&self) -> u64 {
        self.saved_version
    }

    closed spec fn shown_spec(&self) -> bool {
        self.shown
    }

    fn entries(&self) -> (r: &Vec<ItemData>) {
        &self.items
    }

    fn add_entry(&mut self)
        ensures
            final(self).entries_spec().last().desc@.len() == 0,
            final(self).entries_spec().last().unsaved_changes,
    {
        self.items.push(ItemData::new());
        self.version = self.version + 1;
        proof {
            assert(self.items@.subrange(0, old(self).items@.len() as int) =~= old(self).items@);
        }
    }

    fn mark_closed(&mut self, i: usize) {
        let e = ItemData {
            uuid: self.items[i].uuid,
            name: self.items[i].name.clone(),
            desc: self.items[i].desc.clone(),
            unsaved_changes: self.items[i].unsaved_changes,
            is_open: false,
        };
        self.items.set(i, e);
        self.version = self.version + 1;
    }

    fn set_entry_name(&mut self, i: usize, name: String) {
        let e = ItemData {
            uuid: self.items[i].uuid,
            name,
            desc: self.items[i].desc.clone(),
            unsaved_changes: true,
            is_open: self.items[i].is_open,
        };
        self.items.set(i, e);
        self.version = self.version + 1;
    }

    fn compact(&mut self) {
        let mut kept: Vec<ItemData> = Vec::new();
        let mut i: usize = 0;
        while i < self.items.len()
            invariant
                i <= self.items@.len(),
                kept@ == keep_open(self.items@, i as int),
                kept@.len() <= i,
            decreases self.items@.len() - i,
        {
            if self.items[i].is_open {
                let e = ItemData {
                    uuid: self.items[i].uuid,
                    name: self.items[i].name.clone(),
                    desc: self.items[i].desc.clone(),
                    unsaved_changes: self.items[i].unsaved_changes,
                    is_open: true,
                };
                proof {
                    assert(e == self.items@[i as int]);
                }
                kept.push(e);
            }
            i = i + 1;
        }
        if kept.len() != self.items.len() {
            self.version = self.version + 1;
        }
        self.items = kept;
    }

    fn has_changes(&self) -> (r: bool) {
        self.version != self.saved_version
    }

    fn mark_saved(&mut self) {
        self.saved_version = self.version;
    }

    fn search(&self) -> (r: &String) {
        &self.search_field
    }

    fn set_search(&mut self, s: String) {
        self.search_field = s;
    }

    fn is_shown(&self) -> (r: bool) {
        self.shown
    }

    fn set_shown(&mut self, b: bool) {
        self.shown = b;
    }
}

/// A unit-definition record: a name, a background description, and the
/// name of the class the unit belongs to.
pub struct UnitData {
    pub uuid: u128,
    pub name: String,
    pub desc: String,
    pub class: String,
    pub unsaved_changes: bool,
    pub is_open: bool,
}

impl UnitData {
    /// A fresh, open, unnamed unit definition.
    pub fn new() -> (r: Self)
        ensures
            r.name@.len() == 0,
            r.desc@.len() == 0,
            r.class@.len() == 0,
            r.unsaved_changes,
            r.is_open,
    {
        UnitData {
            uuid: fresh_uuid(),
            name: String::new(),
            desc: String::new(),
            class: String::new(),
            unsaved_changes: true,
            is_open: true,
        }
    }
}

impl ListItem for UnitData {
    open spec fn name_spec(&self) -> Seq<char> {
        self.name@
    }

    open spec fn open_spec(&self) -> bool {
        self.is_open
    }

    open spec fn uuid_spec(&self) -> u128 {
        self.uuid
    }

    fn close(&mut self)
        ensures
            *final(self) == (UnitData { is_open: false, ..*old(self) }),
    {
        self.is_open = false;
    }

    fn is_new(&self) -> (r: bool) {
        self.name.as_str().is_empty()
    }

    fn uuid(&self) -> (r: u128) {
        self.uuid
    }

    fn name(&self) -> (r: &String) {
        &self.name
    }
}

/// The list editor for unit-definition records.
pub struct UnitEditor {
    units: Vec<UnitData>,
    search_field: String,
    version: u64,
    saved_version: u64,
    shown: bool,
}

impl UnitEditor {
    /// A fresh, clean, shown, empty editor.
    pub fn new() -> (r: Self)
        ensures
            r.entries_spec().len() == 0,
            !edits_pending(r),
            r.search_spec().len() == 0,
            r.shown_spec(),
    {
        UnitEditor {
            units: Vec::new(),
            search_field: String::new(),
            version: 0,
            saved_version: 0,
            shown: true,
        }
    }

    /// Replaces the description of the unit at an index, and counts the
    /// change.
    pub fn set_desc(&mut self, i: usize, desc: String)
        requires
            i < old(self).entries_spec().len(),
            old(self).version_spec() < u64::MAX,
        ensures
            final(self).entries_spec().len() == old(self).entries_spec().len(),
            final(self).entries_spec()[i as int].desc@ == desc@,
            final(self).entries_spec()[i as int].name == old(self).entries_spec()[i as int].name,
            forall|j: int|
                0 <= j < old(self).entries_spec().len() && j != i
                    ==> final(self).entries_spec()[j] == old(self).entries_spec()[j],
            final(self).version_spec() == old(self).version_spec() + 1,
            final(self).saved_version_spec() == old(self).saved_version_spec(),
    {
        let e = UnitData {
            uuid: self.units[i].uuid,
            name: self.units[i].name.clone(),
            desc,
            class: self.units[i].class.clone(),
            unsaved_changes: true,
            is_open: self.units[i].is_open,
        };
        self.units.set(i, e);
        self.version = self.version + 1;
    }

    /// Replaces the class name of the unit at an index, and counts the
    /// change.
    pub fn set_class(&mut self, i: usize, class: String)
        requires
            i < old(self).entries_spec().len(),
            old(self).version_spec() < u64::MAX,
        ensures
            final(self).entries_spec().len() == old(self).entries_spec().len(),
            final(self).entries_spec()[i as int].class@ == class@,
            final(self).entries_spec()[i as int].name == old(self).entries_spec()[i as int].name,
            forall|j: int|
                0 <= j < old(self).entries_spec().len() && j != i
                    ==> final(self).entries_spec()[j] == old(self).entries_spec()[j],
            final(self).version_spec() == old(self).version_spec() + 1,
            final(self).saved_version_spec() == old(self).saved_version_spec(),
    {
        let e = UnitData {
            uuid: self.units[i].uuid,
            name: self.units[i].name.clone(),
            desc: self.units[i].desc.clone(),
            class,
            unsaved_changes: true,
            is_open: self.units[i].is_open,
        };
        self.units.set(i, e);
        self.version = self.version + 1;
    }
}

impl EditorList for UnitEditor {
    type Item = UnitData;

    closed spec fn entries_spec(&self) -> Seq<UnitData> {
        self.units@
    }

    closed spec fn search_spec(&self) -> Seq<char> {
        self.search_field@
    }

    closed spec fn version_spec(&self) -> u64 {
        self.version
    }

    closed spec fn saved_version_spec(&self) -> u64 {
        self.saved_version
    }

    closed spec fn shown_spec(&self) -> bool {
        self.shown
    }

    fn entries(&self) -> (r: &Vec<UnitData>) {
        &self.units
    }

    fn add_entry(&mut self)
        ensures
            final(self).entries_spec().last().desc@.len() == 0,
            final(self).entries_spec().last().class@.len() == 0,
            final(self).entries_spec().last().unsaved_changes,
    {
        self.units.push(UnitData::new());
        self.version = self.version + 1;
        proof {
            assert(self.units@.subrange(0, old(self).units@.len() as int) =~= old(self).units@);
        }
    }

    fn mark_closed(&mut self, i: usize)
        ensures
            final(self).entries_spec()[i as int] == (UnitData {
                is_open: false,
                ..old(self).entries_spec()[i as int]
            }),
    {
        let e = UnitData {
            uuid: self.units[i].uuid,
            name: self.units[i].name.clone(),
            desc: self.units[i].desc.clone(),
            class: self.units[i].class.clone(),
            unsaved_changes: self.units[i].unsaved_changes,
            is_open: false,
        };
        self.units.set(i, e);
        self.version = self.version + 1;
    }

    fn set_entry_name(&mut self, i: usize, name: String)
        ensures
            final(self).entries_spec()[i as int] == (UnitData {
                name,
                unsaved_changes: true,
                ..old(self).entries_spec()[i as int]
            }),
    {
        let e = UnitData {
            uuid: self.units[i].uuid,
            name,
            desc: self.units[i].desc.clone(),
            class: self.units[i].class.clone(),
            unsaved_changes: true,
            is_open: self.units[i].is_open,
        };
        self.units.set(i, e);
        self.version = self.version + 1;
    }

    fn compact(&mut self) {
        let mut kept: Vec<UnitData> = Vec::new();
        let mut i: usize = 0;
        while i < self.units.len()
            invariant
                i <= self.units@.len(),
                kept@ == keep_open(self.units@, i as int),
                kept@.len() <= i,
            decreases self.units@.len() - i,
        {
            if self.units[i].is_open {
                let e = UnitData {
                    uuid: self.units[i].uuid,
                    name: self.units[i].name.clone(),
                    desc: self.units[i].desc.clone(),
                    class: self.units[i].class.clone(),
                    unsaved_changes: self.units[i].unsaved_changes,
                    is_open: true,
                };
                proof {
                    assert(e == self.units@[i as int]);
                }
                kept.push(e);
            }
            i = i + 1;
        }
        if kept.len() != self.units.len() {
            self.version = self.version + 1;
        }
        self.units = kept;
    }

    fn has_changes(&self) -> (r: bool) {
        self.version != self.saved_version
    }

    fn mark_saved(&mut self) {
        self.saved_version = self.version;
    }

    fn search(&self) -> (r: &String) {
        &self.search_field
    }

    fn set_search(&mut self, s: String) {
        self.search_field = s;
    }

    fn is_shown(&self) -> (r: bool) {
        self.shown
    }

    fn set_shown(&mut self, b: bool) {
        self.shown = b;
    }
}

} // verus!
