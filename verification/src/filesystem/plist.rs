//! Metadata decoder: parses a serialized property list describing each
//! note's window color, frame, and floating state, in either of the two
//! on-disk schemas (a top-level array of records, or a top-level table
//! keyed by identifier), into one uniform identifier-to-metadata table.
//!
//! Array-schema identifiers are case-normalized to lowercase; table-schema
//! keys are used verbatim, as the two schemas are observed on disk.

use crate::error::StickyError;
use crate::table::assoc_index;
use crate::table::assoc_lookup;
use crate::table::assoc_upsert;
use crate::table::lemma_assoc_index;
use std::io::Cursor;
use vstd::prelude::*;

verus! {

/// A scalar field inside one record of the metadata file.
pub enum PlistValue {
    Integer(i64),
    Text(String),
    Flag(bool),
    /// Any other field shape; read as if the field were absent.
    Other,
}

/// One record of the metadata file: named scalar fields, keys unique,
/// insertion order kept.
pub struct PlistDict {
    entries: Vec<(String, PlistValue)>,
}

/// The top level of a parsed metadata file.
pub enum PlistRoot {
    /// The array schema: a sequence of records; an element that is not a
    /// record is `None` and is skipped by the decoder.
    Records(Vec<Option<PlistDict>>),
    /// The table schema: identifier keys mapping to records; a value that
    /// is not a record is `None` and is skipped by the decoder.
    Table(Vec<(String, Option<PlistDict>)>),
    /// Parsed, but neither of the two recognized shapes.
    Scalar,
}

/// Per-note window descriptor read from the metadata file.
#[derive(Debug, Clone)]
pub struct StickyMetadata {
    pub color_index: i64,
    pub frame: String,
    pub is_floating: bool,
}

/// A decoded record as plain values: color index, frame text, floating.
pub open spec fn meta_rep(m: StickyMetadata) -> (i64, Seq<char>, bool) {
    (m.color_index, m.frame@, m.is_floating)
}

impl View for PlistDict {
    type V = Seq<(Seq<char>, PlistValue)>;

    closed spec fn view(&self) -> Seq<(Seq<char>, PlistValue)> {
        Seq::new(self.entries@.len(), |i: int| (self.entries@[i].0@, self.entries@[i].1))
    }
}

impl PlistDict {
    /// An empty record.
    pub fn new() -> (r: PlistDict)
        ensures
            r@ == Seq::<(Seq<char>, PlistValue)>::empty(),
    {
        let r = PlistDict { entries: Vec::new() };
        proof {
            assert(r@ =~= Seq::<(Seq<char>, PlistValue)>::empty());
        }
        r
    }

    /// Stores `value` under `key`, replacing any field already so named.
    pub fn insert(&mut self, key: String, value: PlistValue)
        ensures
            final(self)@ == assoc_upsert(old(self)@, key@, value),
    {
        proof {
            lemma_assoc_index(self@, key@);
        }
        let n = self.entries.len();
        let mut i: usize = 0;
        while i < n
            invariant
                n == self.entries@.len(),
                0 <= i <= n,
                self@ == old(self)@,
                self.entries@ == old(self).entries@,
                forall|j: int| 0 <= j < i ==> self@[j].0 != key@,
            decreases n - i,
        {
            if self.entries[i].0 == key {
                proof {
                    assert(self@[i as int].0 == key@);
                    assert(assoc_index(self@, key@) == i as int) by {
                        lemma_assoc_index(self@, key@);
                    }
                }
                self.entries.remove(i);
                self.entries.insert(i, (key, value));
                proof {
                    assert(final(self)@ =~= assoc_upsert(old(self)@, key@, value));
                }
                return ;
            }
            i += 1;
        }
        proof {
            assert(assoc_index(self@, key@) < 0) by {
                lemma_assoc_index(self@, key@);
            }
        }
        self.entries.push((key, value));
        proof {
            assert(final(self)@ =~= assoc_upsert(old(self)@, key@, value));
        }
    }

    /// The field stored under `key`, if any.
    pub fn get(&self, key: &String) -> (r: Option<&PlistValue>)
        ensures
            match r {
                Some(v) => assoc_lookup(self@, key@) == Some(*v),
                None => assoc_lookup(self@, key@) is None,
            },
    {
        let n = self.entries.len();
        let mut i: usize = 0;
        while i < n
            invariant
                n == self.entries@.len(),
                0 <= i <= n,
                forall|j: int| 0 <= j < i ==> self@[j].0 != key@,
            decreases n - i,
        {
            if self.entries[i].0 == *key {
                proof {
                    assert(self@[i as int].0 == key@);
                    assert(assoc_index(self@, key@) == i as int) by {
                        lemma_assoc_index(self@, key@);
                    }
                }
                return Some(&self.entries[i].1);
            }
            i += 1;
        }
        proof {
            lemma_assoc_index(self@, key@);
        }
        None
    }
}

/// The integer a record field carries, if it is an integer.
pub open spec fn field_int(v: PlistValue) -> Option<i64> {
    match v {
        PlistValue::Integer(i) => Some(i),
        _ => None,
    }
}

/// The text a record field carries, if it is text.
pub open spec fn field_text(v: PlistValue) -> Option<Seq<char>> {
    match v {
        PlistValue::Text(s) => Some(s@),
        _ => None,
    }
}

/// The flag a record field carries, if it is a flag.
pub open spec fn field_flag(v: PlistValue) -> Option<bool> {
    match v {
        PlistValue::Flag(b) => Some(b),
        _ => None,
    }
}

/// The color index a record owes: its integer `Color` field, or 0 when
/// the field is absent or not an integer.
pub open spec fn spec_color_index(d: Seq<(Seq<char>, PlistValue)>) -> i64 {
    match assoc_lookup(d, "Color"@) {
        Some(v) => match field_int(v) {
            Some(i) => i,
            None => 0,
        },
        None => 0,
    }
}

/// The fixed placeholder frame used when a record names none.
pub open spec fn default_frame() -> Seq<char> {
    "{{100, 100}, {250, 250}}"@
}

/// The frame text a record owes: its text `Frame` field, or the fixed
/// placeholder when the field is absent or not text.
pub open spec fn spec_frame(d: Seq<(Seq<char>, PlistValue)>) -> Seq<char> {
    match assoc_lookup(d, "Frame"@) {
        Some(v) => match field_text(v) {
            Some(s) => s,
            None => default_frame(),
        },
        None => default_frame(),
    }
}

/// The floating state a record owes: its flag `Floating` field, or false
/// when the field is absent or not a flag.
pub open spec fn spec_floating(d: Seq<(Seq<char>, PlistValue)>) -> bool {
    match assoc_lookup(d, "Floating"@) {
        Some(v) => match field_flag(v) {
            Some(b) => b,
            None => false,
        },
        None => false,
    }
}

/// Everything a record decodes to, as plain values.
pub open spec fn decoded_record(d: Seq<(Seq<char>, PlistValue)>) -> (i64, Seq<char>, bool) {
    (spec_color_index(d), spec_frame(d), spec_floating(d))
}

/// The name of the color category for a color index: indices 1 through 5
/// name their own categories; 0 and every unrecognized index share the
/// default category.
pub open spec fn spec_color_name(idx: i64) -> Seq<char> {
    if idx == 1 {
        "blue"@
    } else if idx == 2 {
        "green"@
    } else if idx == 3 {
        "pink"@
    } else if idx == 4 {
        "purple"@
    } else if idx == 5 {
        "gray"@
    } else {
        "yellow"@
    }
}

impl StickyMetadata {
    /// Decodes one record: `color_index` defaults to 0, `frame` to the
    /// fixed placeholder, `is_floating` to false, each when its field is
    /// absent or of the wrong shape. Never fails.
    pub fn from_plist_dict(dict: &PlistDict) -> (r: Result<StickyMetadata, StickyError>)
        ensures
            r matches Ok(m) && meta_rep(m) == decoded_record(dict@),
    {
        let color_key = String::from_str("Color");
        let color_index: i64 = match dict.get(&color_key) {
            Some(PlistValue::Integer(i)) => *i,
            _ => 0,
        };
        let frame_key = String::from_str("Frame");
        let frame: String = match dict.get(&frame_key) {
            Some(PlistValue::Text(s)) => s.clone(),
            _ => String::from_str("{{100, 100}, {250, 250}}"),
        };
        let floating_key = String::from_str("Floating");
        let is_floating: bool = match dict.get(&floating_key) {
            Some(PlistValue::Flag(b)) => *b,
            _ => false,
        };
        Ok(StickyMetadata { color_index, frame, is_floating })
    }

    /// The color category this metadata's index names.
    pub fn color_name(&self) -> (r: &'static str)
        ensures
            r@ == spec_color_name(self.color_index),
    {
        if self.color_index == 1 {
            "blue"
        } else if self.color_index == 2 {
            "green"
        } else if self.color_index == 3 {
            "pink"
        } else if self.color_index == 4 {
            "purple"
        } else if self.color_index == 5 {
            "gray"
        } else {
            "yellow"
        }
    }
}

/// The identifier-to-metadata table the decoder produces. Keys are unique;
/// insertion order is kept.
pub struct MetadataTable {
    entries: Vec<(String, StickyMetadata)>,
}

impl View for MetadataTable {
    type V = Seq<(Seq<char>, (i64, Seq<char>, bool))>;

    closed spec fn view(&self) -> Seq<(Seq<char>, (i64, Seq<char>, bool))> {
        Seq::new(
            self.entries@.len(),
            |i: int| (self.entries@[i].0@, meta_rep(self.entries@[i].1)),
        )
    }
}

impl MetadataTable {
    /// An empty table.
    pub fn new() -> (r: MetadataTable)
        ensures
            r@ == Seq::<(Seq<char>, (i64, Seq<char>, bool))>::empty(),
    {
        let r = MetadataTable { entries: Vec::new() };
        proof {
            assert(r@ =~= Seq::<(Seq<char>, (i64, Seq<char>, bool))>::empty());
        }
        r
    }

    pub fn len(&self) -> (r: usize)
        ensures
            r == self@.len(),
    {
        self.entries.len()
    }

    /// Stores `meta` under `id`, replacing any entry already keyed by it.
    pub fn insert(&mut self, id: String, meta: StickyMetadata)
        ensures
            final(self)@ == assoc_upsert(old(self)@, id@, meta_rep(meta)),
    {
        proof {
            lemma_assoc_index(self@, id@);
        }
        let n = self.entries.len();
        let mut i: usize = 0;
        while i < n
            invariant
                n == self.entries@.len(),
                0 <= i <= n,
                self@ == old(self)@,
                self.entries@ == old(self).entries@,
                forall|j: int| 0 <= j < i ==> self@[j].0 != id@,
            decreases n - i,
        {
            if self.entries[i].0 == id {
                proof {
                    assert(self@[i as int].0 == id@);
                    assert(assoc_index(self@, id@) == i as int) by {
                        lemma_assoc_index(self@, id@);
                    }
                }
                self.entries.remove(i);
                self.entries.insert(i, (id, meta));
                proof {
                    assert(final(self)@ =~= assoc_upsert(old(self)@, id@, meta_rep(meta)));
                }
                return ;
            }
            i += 1;
        }
        proof {
            assert(assoc_index(self@, id@) < 0) by {
                lemma_assoc_index(self@, id@);
            }
        }
        self.entries.push((id, meta));
        proof {
            assert(final(self)@ =~= assoc_upsert(old(self)@, id@, meta_rep(meta)));
        }
    }

    /// The metadata stored under `id`, if any.
    pub fn get(&self, id: &String) -> (r: Option<&StickyMetadata>)
        ensures
            match r {
                Some(m) => assoc_lookup(self@, id@) == Some(meta_rep(*m)),
                None => assoc_lookup(self@, id@) is None,
            },
    {
        let n = self.entries.len();
        let mut i: usize = 0;
        while i < n
            invariant
                n == self.entries@.len(),
                0 <= i <= n,
                forall|j: int| 0 <= j < i ==> self@[j].0 != id@,
            decreases n - i,
        {
            if self.entries[i].0 == *id {
                proof {
                    assert(self@[i as int].0 == id@);
                    assert(assoc_index(self@, id@) == i as int) by {
                        lemma_assoc_index(self@, id@);
                    }
                }
                return Some(&self.entries[i].1);
            }
            i += 1;
        }
        proof {
            lemma_assoc_index(self@, id@);
        }
        None
    }

    /// Whether any entry is keyed by `id`.
    pub fn contains_key(&self, id: &String) -> (r: bool)
        ensures
            r == (assoc_lookup(self@, id@) is Some),
    {
        self.get(id).is_some()
    }

    /// Every key of the table, in its insertion order.
    pub fn keys(&self) -> (r: Vec<String>)
        ensures
            r@.len() == self@.len(),
            forall|i: int| 0 <= i < r@.len() ==> r@[i]@ == self@[i].0,
    {
        let n = self.entries.len();
        let mut out: Vec<String> = Vec::new();
        let mut i: usize = 0;
        while i < n
            invariant
                n == self.entries@.len(),
                0 <= i <= n,
                out@.len() == i,
                forall|j: int| 0 <= j < i ==> out@[j]@ == self@[j].0,
            decreases n - i,
        {
            out.push(self.entries[i].0.clone());
            i += 1;
        }
        out
    }
}

/// The identifier an array-schema record names, if its `UUID` field is
/// text.
pub open spec fn record_uuid(d: Seq<(Seq<char>, PlistValue)>) -> Option<Seq<char>> {
    match assoc_lookup(d, "UUID"@) {
        Some(v) => field_text(v),
        None => None,
    }
}

/// What the array schema decodes to: each record with a textual `UUID`
/// field lands under its lowercased identifier, later records replacing
/// earlier ones; records without one, and non-records, are skipped.
pub open spec fn decode_records(v: Seq<Option<PlistDict>>) -> Seq<
    (Seq<char>, (i64, Seq<char>, bool)),
>
    decreases v.len(),
{
    if v.len() == 0 {
        Seq::empty()
    } else {
        let rest = decode_records(v.drop_last());
        match v.last() {
            Some(d) => match record_uuid(d@) {
                Some(u) => assoc_upsert(rest, lower_of(u), decoded_record(d@)),
                None => rest,
            },
            None => rest,
        }
    }
}

/// The (key, record) views of the table schema's entries.
pub open spec fn table_entry_views(s: Seq<(String, Option<PlistDict>)>) -> Seq<
    (Seq<char>, Option<PlistDict>),
> {
    Seq::new(s.len(), |i: int| (s[i].0@, s[i].1))
}

/// What the table schema decodes to: each record lands under its verbatim
/// key, later entries replacing earlier ones; non-records are skipped.
pub open spec fn decode_table(v: Seq<(Seq<char>, Option<PlistDict>)>) -> Seq<
    (Seq<char>, (i64, Seq<char>, bool)),
>
    decreases v.len(),
{
    if v.len() == 0 {
        Seq::empty()
    } else {
        let rest = decode_table(v.drop_last());
        match v.last().1 {
            Some(d) => assoc_upsert(rest, v.last().0, decoded_record(d@)),
            None => rest,
        }
    }
}

/// The lowercase form of a character sequence, as the standard library
/// computes it.
pub uninterp spec fn lower_of(s: Seq<char>) -> Seq<char>;

/// Relies on str::to_lowercase: the result depends on the characters
/// alone.
#[verifier::external_body]
fn lowercase(s: &str) -> (r: String)
    ensures
        r@ == lower_of(s@),
{
    s.to_lowercase()
}

/// The property-list parser's value type, carried opaquely.
#[verifier::external_type_specification]
#[verifier::external_body]
pub struct ExPlistValue(plist::Value);

/// The parse of a metadata document: what the two record-shaped top
/// levels hold, `Scalar` for any other top level, nothing when the bytes
/// are not a property list at all.
pub uninterp spec fn parsed_plist(bytes: Seq<u8>) -> Option<PlistRoot>;

/// Serves `parse_plist`: relies on plist::Value's accessors to convert
/// one field of a record. Integers that fit a signed word, text, and
/// booleans are kept; any other value shape is an `Other` field.
#[verifier::external_body]
fn field_value(v: &plist::Value) -> PlistValue {
    if let Some(i) = v.as_signed_integer() { PlistValue::Integer(i) }
    else if let Some(s) = v.as_string() { PlistValue::Text(s.to_string()) }
    else if let Some(b) = v.as_boolean() { PlistValue::Flag(b) }
    else { PlistValue::Other }
}

/// Relies on plist::Value::from_reader: parses a property list document of
/// any encoding. The two record-shaped top levels are kept field by field
/// (integers that fit a signed word, text, and booleans; anything else is
/// an `Other` field); any other top level becomes `Scalar`.
#[verifier::external_body]
fn parse_plist(bytes: &[u8]) -> (r: Result<PlistRoot, plist::Error>)
    ensures
        match r {
            Ok(root) => parsed_plist(bytes@) == Some(root),
            Err(_) => parsed_plist(bytes@) is None,
        },
{
    let conv = |e: &plist::Value| e.as_dictionary().map(|d| PlistDict {
        entries: d.iter().map(|(k, v)| (k.clone(), field_value(v))).collect(),
    });
    Ok(match plist::Value::from_reader(Cursor::new(bytes))? {
        plist::Value::Array(a) => PlistRoot::Records(a.iter().map(conv).collect()),
        plist::Value::Dictionary(d) => PlistRoot::Table(d.into_iter().map(|(k, e)| (k, conv(&e))).collect()),
        _ => PlistRoot::Scalar,
    })
}

/// Decodes the metadata file's bytes into the identifier-to-metadata
/// table. An absent file (`None`) is no error and yields the empty table;
/// unparseable bytes and an unrecognized top-level shape are errors.
pub fn read_stickies_state(data: Option<&[u8]>) -> (r: Result<MetadataTable, StickyError>)
    ensures
        match data {
            None => r matches Ok(t) && t@ == Seq::<(Seq<char>, (i64, Seq<char>, bool))>::empty(),
            Some(bytes) => match parsed_plist(bytes@) {
                None => r matches Err(e) && e is Plist,
                Some(root) => match root {
                    PlistRoot::Records(v) => r matches Ok(t) && t@ == decode_records(v@),
                    PlistRoot::Table(entries) => r matches Ok(t) && t@ == decode_table(
                        table_entry_views(entries@),
                    ),
                    PlistRoot::Scalar => r matches Err(e) && e is Config,
                },
            },
        },
{
    let bytes = match data {
        Some(b) => b,
        None => {
            return Ok(MetadataTable::new());
        },
    };
    let root = match parse_plist(bytes) {
        Ok(root) => root,
        Err(e) => {
            return Err(StickyError::Plist(e));
        },
    };
    match root {
        PlistRoot::Records(items) => {
            let uuid_key = String::from_str("UUID");
            let mut table = MetadataTable::new();
            let n = items.len();
            let mut i: usize = 0;
            while i < n
                invariant
                    n == items@.len(),
                    0 <= i <= n,
                    uuid_key@ == "UUID"@,
                    table@ == decode_records(items@.take(i as int)),
                decreases n - i,
            {
                match &items[i] {
                    Some(dict) => {
                        match dict.get(&uuid_key) {
                            Some(PlistValue::Text(u)) => {
                                let meta = match StickyMetadata::from_plist_dict(dict) {
                                    Ok(m) => m,
                                    Err(e) => {
                                        return Err(e);
                                    },
                                };
                                table.insert(lowercase(u.as_str()), meta);
                            },
                            _ => {},
                        }
                    },
                    None => {},
                }
                proof {
                    assert(items@.take(i + 1).drop_last() =~= items@.take(i as int));
                    assert(items@.take(i + 1).last() == items@[i as int]);
                }
                i += 1;
            }
            proof {
                assert(items@.take(n as int) =~= items@);
            }
            Ok(table)
        },
        PlistRoot::Table(entries) => {
            let mut table = MetadataTable::new();
            let n = entries.len();
            let mut i: usize = 0;
            while i < n
                invariant
                    n == entries@.len(),
                    0 <= i <= n,
                    table@ == decode_table(table_entry_views(entries@.take(i as int))),
                decreases n - i,
            {
                match &entries[i].1 {
                    Some(dict) => {
                        let meta = match StickyMetadata::from_plist_dict(dict) {
                            Ok(m) => m,
                            Err(e) => {
                                return Err(e);
                            },
                        };
                        table.insert(entries[i].0.clone(), meta);
                    },
                    None => {},
                }
                proof {
                    let pre = table_entry_views(entries@.take(i as int));
                    let cur = table_entry_views(entries@.take(i + 1));
                    assert(cur.drop_last() =~= pre);
                    assert(cur.last() == (entries@[i as int].0@, entries@[i as int].1));
                }
                i += 1;
            }
            proof {
                assert(table_entry_views(entries@.take(n as int)) =~= table_entry_views(
                    entries@,
                ));
            }
            Ok(table)
        },
        PlistRoot::Scalar => Err(StickyError::Config(String::from_str("Invalid plist format"))),
    }
}

} // verus!
