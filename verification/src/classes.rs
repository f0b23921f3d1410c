//! Character classes: records with a persisted name and description plus
//! transient editing state, and their list editor. A class collection
//! persists as a document table keyed by class name, each value a table
//! holding at least `desc`.

use vstd::prelude::*;

use crate::document::{doc_get, doc_view, pairs_view, render_value, spec_get, DocV, DocValue};
use crate::text::{append_escaped, chars_to_string, str_chars};
use crate::editors::{edits_pending, fresh_uuid, keep_open, EditorList, ListItem};
use crate::parse::{parse_document_chars, parse_document_text};
use crate::{ErrorKind, FeError};

verus! {

broadcast use vstd::string::group_string_axioms;

/// One character class: the persisted name (the document key) and
/// description, the icon it is drawn with, and transient editing state.
/// The identity is never persisted; a class with an empty name counts as
/// new and cannot be serialized.
#[derive(Debug)]
pub struct ClassData {
    pub name: String,
    pub desc: String,
    pub texture: String,
    pub uuid: u128,
    pub is_open: bool,
}

/// The text one class serializes to: a section holding the description,
/// keyed by the class name, which is always written quoted and escaped
/// whatever its characters.
pub open spec fn class_text(name: Seq<char>, desc: Seq<char>) -> Seq<char> {
    seq!['['] + render_value(DocV::Str(name)) + seq![']', '\n'] + seq![
        'd',
        'e',
        's',
        'c',
        ' ',
        '=',
        ' ',
    ] + render_value(DocV::Str(desc)) + seq!['\n']
}

impl ClassData {
    /// A fresh, open, unnamed class drawn with the given icon.
    pub fn with_texture(texture: String) -> (r: Self)
        ensures
            r.name@.len() == 0,
            r.desc@.len() == 0,
            r.texture@ == texture@,
            r.is_open,
    {
        ClassData {
            texture,
            name: String::new(),
            desc: String::new(),
            uuid: fresh_uuid(),
            is_open: true,
        }
    }

    /// Serializes the class to its section text. A blank name is a
    /// validation error, since the name is the persisted identity; any
    /// other name yields a section keyed by that (quoted) name holding
    /// the description.
    pub fn to_toml(&self) -> (r: Result<String, FeError>)
        ensures
            match r {
                Result::Ok(s) => self.name@.len() > 0 && s@ == class_text(self.name@, self.desc@),
                Result::Err(e) => self.name@.len() == 0 && e.kind == ErrorKind::Validation
                    && e.msg@ == "A class has a blank name."@,
            },
    {
        if self.name.as_str().unicode_len() == 0 {
            return Result::Err(
                FeError {
                    kind: ErrorKind::Validation,
                    msg: "A class has a blank name.".to_owned(),
                },
            );
        }
        let mut out: Vec<char> = Vec::new();
        out.push('[');
        out.push('"');
        let nm = str_chars(self.name.as_str());
        append_escaped(&mut out, &nm);
        out.push('"');
        out.push(']');
        out.push('\n');
        out.push('d');
        out.push('e');
        out.push('s');
        out.push('c');
        out.push(' ');
        out.push('=');
        out.push(' ');
        out.push('"');
        let dc = str_chars(self.desc.as_str());
        append_escaped(&mut out, &dc);
        out.push('"');
        out.push('\n');
        proof {
            assert(out@ =~= class_text(self.name@, self.desc@));
        }
        Result::Ok(chars_to_string(&out))
    }
}

impl ListItem for ClassData {
    open spec fn name_spec(&self) -> Seq<char> {
        self.name@
    }

    open spec fn open_spec(&self) -> bool {
        self.is_open
    }

    open spec fn uuid_spec(&self) -> u128 {
        self.uuid
    }

    fn close(&mut self)
        ensures
            *final(self) == (ClassData { is_open: false, ..*old(self) }),
    {
        self.is_open = false;
    }

    fn is_new(&self) -> (r: bool) {
        self.name.as_str().is_empty()
    }

    fn uuid(&self) -> (r: u128) {
        self.uuid
    }

    fn name(&self) -> (r: &String) {
        &self.name
    }
}

/// The name and description each class definition carries.
pub open spec fn defs_view(s: Seq<ClassData>) -> Seq<(Seq<char>, Seq<char>)> {
    Seq::new(s.len(), |i: int| (s[i].name@, s[i].desc@))
}

/// Reads class definitions out of a collection document's pairs: each
/// value must be a table whose `desc` field is a string.
pub open spec fn class_defs_of(
    ps: Seq<(Seq<char>, DocV)>,
    i: int,
    acc: Seq<(Seq<char>, Seq<char>)>,
) -> Option<Seq<(Seq<char>, Seq<char>)>>
    decreases ps.len() - i,
{
    if !(0 <= i <= ps.len()) {
        Option::None
    } else if i == ps.len() {
        Option::Some(acc)
    } else {
        match ps[i].1 {
            DocV::Table(sps) => match spec_get(sps, "desc"@) {
                Option::Some(DocV::Str(d)) => class_defs_of(ps, i + 1, acc.push((ps[i].0, d))),
                _ => Option::None,
            },
            _ => Option::None,
        }
    }
}

/// The list editor for character classes, plus the icon that freshly
/// created classes start with.
#[derive(Debug)]
pub struct ClassEditor {
    classes: Vec<ClassData>,
    search_field: String,
    version: u64,
    saved_version: u64,
    shown: bool,
    default_icon: String,
}

/// The text a class collection serializes to: the sections of the first
/// `i` classes, one blank line after each.
pub open spec fn classes_text(s: Seq<ClassData>, i: int) -> Seq<char>
    decreases i,
{
    if i <= 0 {
        Seq::empty()
    } else {
        classes_text(s, i - 1) + class_text(s[i - 1].name@, s[i - 1].desc@) + seq!['\n']
    }
}

impl ClassEditor {
    /// The icon freshly created classes start with.
    pub closed spec fn default_icon_spec(&self) -> Seq<char> {
        self.default_icon@
    }

    /// A fresh, clean, empty editor with the given default icon.
    pub fn new(default_icon: String) -> (r: Self)
        ensures
            r.entries_spec().len() == 0,
            !edits_pending(r),
            r.search_spec().len() == 0,
            r.shown_spec(),
            r.default_icon_spec() == default_icon@,
    {
        ClassEditor {
            classes: Vec::new(),
            search_field: String::new(),
            version: 0,
            saved_version: 0,
            shown: true,
            default_icon,
        }
    }

    /// Opens a class collection from schema text. Returns a parse error
    /// exactly when the text is not grammatical and a schema error
    /// exactly when an entry is not a table with a string `desc`;
    /// otherwise the editor holds one open class per document pair, in
    /// order, each drawn with the default icon, and counts as clean.
    pub fn open(text: &str, default_icon: String) -> (r: Result<ClassEditor, FeError>)
        ensures
            match r {
                Result::Ok(ed) => {
                    &&& parse_document_chars(text@) is Some
                    &&& class_defs_of(
                        parse_document_chars(text@)->Some_0->Table_0,
                        0,
                        Seq::empty(),
                    ) is Some
                    &&& defs_view(ed.entries_spec()) == class_defs_of(
                        parse_document_chars(text@)->Some_0->Table_0,
                        0,
                        Seq::empty(),
                    )->Some_0
                    &&& forall|i: int|
                        0 <= i < ed.entries_spec().len() ==> (#[trigger] ed.entries_spec()[
                            i
                        ]).is_open && ed.entries_spec()[i].texture@ == default_icon@
                    &&& !edits_pending(ed)
                    &&& ed.search_spec().len() == 0
                    &&& ed.shown_spec()
                    &&& ed.default_icon_spec() == default_icon@
                },
                Result::Err(e) => (parse_document_chars(text@) is None && e.kind
                    == ErrorKind::Parse) || (parse_document_chars(text@) is Some && class_defs_of(
                    parse_document_chars(text@)->Some_0->Table_0,
                    0,
                    Seq::empty(),
                ) is None && e.kind == ErrorKind::Schema),
            },
    {
        let doc = match parse_document_text(text) {
            Result::Ok(doc) => doc,
            Result::Err(e) => {
                return Result::Err(e);
            },
        };
        let ps = match &doc {
            DocValue::Table(ps) => ps,
            _ => {
                return Result::Err(
                    FeError {
                        kind: ErrorKind::Schema,
                        msg: "a class collection must be a table".to_owned(),
                    },
                );
            },
        };
        proof {
            crate::document::lemma_pairs_view(ps@);
        }
        let mut classes: Vec<ClassData> = Vec::new();
        proof {
            assert(defs_view(classes@) =~= Seq::<(Seq<char>, Seq<char>)>::empty());
        }
        let mut i: usize = 0;
        while i < ps.len()
            invariant
                i <= ps@.len(),
                parse_document_chars(text@) == Option::Some(doc@),
                doc@ == DocV::Table(pairs_view(ps@)),
                pairs_view(ps@).len() == ps@.len(),
                forall|t: int|
                    0 <= t < ps@.len() ==> pairs_view(ps@)[t] == ((#[trigger] ps@[t]).0@, doc_view(
                        ps@[t].1,
                    )),
                class_defs_of(pairs_view(ps@), 0, Seq::empty()) == class_defs_of(
                    pairs_view(ps@),
                    i as int,
                    defs_view(classes@),
                ),
                forall|t: int|
                    0 <= t < classes@.len() ==> (#[trigger] classes@[t]).is_open
                        && classes@[t].texture@ == default_icon@,
            decreases ps@.len() - i,
        {
            let sps = match &ps[i].1 {
                DocValue::Table(sps) => sps,
                _ => {
                    proof {
                        let dv = ps@[i as int].1;
                        assert(!(doc_view(dv) is Table)) by {
                            if dv is Int {
                            } else if dv is Str {
                            } else if dv is Arr {
                            }
                        }
                    }
                    return Result::Err(
                        FeError {
                            kind: ErrorKind::Schema,
                            msg: "a class entry must be a table".to_owned(),
                        },
                    );
                },
            };
            let dkey = "desc".to_owned();
            let got = doc_get(sps, &dkey);
            let desc = match got {
                Option::Some(DocValue::Str(d)) => d.clone(),
                Option::Some(other) => {
                    proof {
                        assert(!(doc_view(*other) is Str)) by {
                            if *other is Int {
                            } else if *other is Arr {
                            } else if *other is Table {
                            }
                        }
                    }
                    return Result::Err(
                        FeError {
                            kind: ErrorKind::Schema,
                            msg: "`desc` of a class must be a string".to_owned(),
                        },
                    );
                },
                Option::None => {
                    return Result::Err(
                        FeError {
                            kind: ErrorKind::Schema,
                            msg: "`desc` of a class must be a string".to_owned(),
                        },
                    );
                },
            };
            let ghost before = defs_view(classes@);
            classes.push(
                ClassData {
                    name: ps[i].0.clone(),
                    desc,
                    texture: default_icon.clone(),
                    uuid: fresh_uuid(),
                    is_open: true,
                },
            );
            proof {
                assert(defs_view(classes@) =~= before.push(
                    (ps@[i as int].0@, classes@.last().desc@),
                ));
            }
            i = i + 1;
        }
        Result::Ok(
            ClassEditor {
                classes,
                search_field: String::new(),
                version: 0,
                saved_version: 0,
                shown: true,
                default_icon,
            },
        )
    }

    /// Serializes the collection: one section per class, in order, with
    /// a blank line after each. A class with a blank name is a
    /// validation error, and nothing is serialized in that case.
    pub fn to_toml(&self) -> (r: Result<String, FeError>)
        ensures
            match r {
                Result::Ok(s) => (forall|i: int|
                    0 <= i < self.entries_spec().len() ==> (#[trigger] self.entries_spec()[
                        i
                    ]).name@.len() > 0) && s@ == classes_text(
                    self.entries_spec(),
                    self.entries_spec().len() as int,
                ),
                Result::Err(e) => (exists|i: int|
                    0 <= i < self.entries_spec().len() && (#[trigger] self.entries_spec()[
                        i
                    ]).name@.len() == 0) && e.kind == ErrorKind::Validation && e.msg@
                    == "A class has a blank name."@,
            },
    {
        let mut out = String::new();
        let mut i: usize = 0;
        while i < self.classes.len()
            invariant
                i <= self.classes@.len(),
                out@ == classes_text(self.classes@, i as int),
                forall|t: int| 0 <= t < i ==> (#[trigger] self.classes@[t]).name@.len() > 0,
            decreases self.classes@.len() - i,
        {
            match self.classes[i].to_toml() {
                Result::Ok(s) => {
                    out.append(s.as_str());
                    out.append("\n");
                    proof {
                        reveal_strlit("\n");
                        assert("\n"@ =~= seq!['\n']);
                        assert(out@ =~= classes_text(self.classes@, i + 1));
                    }
                },
                Result::Err(e) => {
                    proof {
                        assert(self.entries_spec()[i as int].name@.len() == 0);
                    }
                    return Result::Err(e);
                },
            }
            i = i + 1;
        }
        Result::Ok(out)
    }

    /// Replaces the description of the class at an index, and counts the
    /// change.
    pub fn set_desc(&mut self, i: usize, desc: String)
        requires
            i < old(self).entries_spec().len(),
            old(self).version_spec() < u64::MAX,
        ensures
            final(self).entries_spec().len() == old(self).entries_spec().len(),
            final(self).entries_spec()[i as int].desc@ == desc@,
            final(self).entries_spec()[i as int].name == old(self).entries_spec()[i as int].name,
            forall|j: int|
                0 <= j < old(self).entries_spec().len() && j != i
                    ==> final(self).entries_spec()[j] == old(self).entries_spec()[j],
            final(self).version_spec() == old(self).version_spec() + 1,
            final(self).saved_version_spec() == old(self).saved_version_spec(),
    {
        let e = ClassData {
            name: self.classes[i].name.clone(),
            desc,
            texture: self.classes[i].texture.clone(),
            uuid: self.classes[i].uuid,
            is_open: self.classes[i].is_open,
        };
        self.classes.set(i, e);
        self.version = self.version + 1;
    }
}

impl EditorList for ClassEditor {
    type Item = ClassData;

    closed spec fn entries_spec(&self) -> Seq<ClassData> {
        self.classes@
    }

    closed spec fn search_spec(&self) -> Seq<char> {
        self.search_field@
    }

    closed spec fn version_spec(&self) -> u64 {
        self.version
    }

    closed spec fn saved_version_spec(&self) -> u64 {
        self.saved_version
    }

    closed spec fn shown_spec(&self) -> bool {
        self.shown
    }

    fn entries(&self) -> (r: &Vec<ClassData>) {
        &self.classes
    }

    fn add_entry(&mut self)
        ensures
            final(self).entries_spec().last().desc@.len() == 0,
            final(self).entries_spec().last().texture@ == old(self).default_icon_spec(),
            final(self).default_icon_spec() == old(self).default_icon_spec(),
    {
        self.classes.push(ClassData::with_texture(self.default_icon.clone()));
        self.version = self.version + 1;
        proof {
            assert(self.classes@.subrange(0, old(self).classes@.len() as int) =~= old(
                self,
            ).classes@);
        }
    }

    fn mark_closed(&mut self, i: usize)
        ensures
            final(self).entries_spec()[i as int] == (ClassData {
                is_open: false,
                ..old(self).entries_spec()[i as int]
            }),
            final(self).default_icon_spec() == old(self).default_icon_spec(),
    {
        let e = ClassData {
            name: self.classes[i].name.clone(),
            desc: self.classes[i].desc.clone(),
            texture: self.classes[i].texture.clone(),
            uuid: self.classes[i].uuid,
            is_open: false,
        };
        self.classes.set(i, e);
        self.version = self.version + 1;
    }

    fn set_entry_name(&mut self, i: usize, name: String)
        ensures
            final(self).entries_spec()[i as int] == (ClassData {
                name,
                ..old(self).entries_spec()[i as int]
            }),
            final(self).default_icon_spec() == old(self).default_icon_spec(),
    {
        let e = ClassData {
            name,
            desc: self.classes[i].desc.clone(),
            texture: self.classes[i].texture.clone(),
            uuid: self.classes[i].uuid,
            is_open: self.classes[i].is_open,
        };
        self.classes.set(i, e);
        self.version = self.version + 1;
    }

    fn compact(&mut self) {
        let mut kept: Vec<ClassData> = Vec::new();
        let mut i: usize = 0;
        while i < self.classes.len()
            invariant
                i <= self.classes@.len(),
                kept@ == keep_open(self.classes@, i as int),
                kept@.len() <= i,
            decreases self.classes@.len() - i,
        {
            if self.classes[i].is_open {
                let e = ClassData {
                    name: self.classes[i].name.clone(),
                    desc: self.classes[i].desc.clone(),
                    texture: self.classes[i].texture.clone(),
                    uuid: self.classes[i].uuid,
                    is_open: true,
                };
                proof {
                    assert(e == self.classes@[i as int]);
                }
                kept.push(e);
            }
            i = i + 1;
        }
        if kept.len() != self.classes.len() {
            self.version = self.version + 1;
        }
        self.classes = kept;
    }

    fn has_changes(&self) -> (r: bool) {
        self.version != self.saved_version
    }

    fn mark_saved(&mut self) {
        self.saved_version = self.version;
    }

    fn search(&self) -> (r: &String) {
        &self.search_field
    }

    fn set_search(&mut self, s: String) {
        self.search_field = s;
    }

    fn is_shown(&self) -> (r: bool) {
        self.shown
    }

    fn set_shown(&mut self, b: bool) {
        self.shown = b;
    }
}

} // verus!
