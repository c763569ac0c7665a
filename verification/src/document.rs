//! TOML documents, as far as the configuration files are read from them: the
//! entries at the top of a document and the fields of its tables.

use vstd::prelude::*;
use vstd::string::StringExecFns;

verus! {

/// A value in a table of a TOML document, as far as this library reads it.
#[derive(Debug)]
pub enum Field {
    /// A text.
    Text(String),
    /// A list: each item that is a text, `None` for any other item.
    List(Vec<Option<String>>),
    /// Any other value.
    Other,
}

/// What a field holds.
pub enum FieldView {
    Text(Seq<char>),
    List(Seq<Option<Seq<char>>>),
    Other,
}

/// What an item of a list holds.
pub open spec fn item_view(item: Option<String>) -> Option<Seq<char>> {
    match item {
        Some(text) => Some(text@),
        None => None,
    }
}

/// What the items of a list hold.
pub open spec fn item_views(items: Seq<Option<String>>) -> Seq<Option<Seq<char>>> {
    Seq::new(items.len(), |i: int| item_view(items[i]))
}

impl View for Field {
    type V = FieldView;

    open spec fn view(&self) -> FieldView {
        match self {
            Field::Text(text) => FieldView::Text(text@),
            Field::List(items) => FieldView::List(item_views(items@)),
            Field::Other => FieldView::Other,
        }
    }
}

/// The fields of a table: names and values, in order.
pub type Fields = Seq<(Seq<char>, FieldView)>;

/// What a list of named fields holds.
pub open spec fn field_views(fields: Seq<(String, Field)>) -> Fields {
    Seq::new(fields.len(), |i: int| (fields[i].0@, fields[i].1@))
}

/// An entry at the top of a TOML document: its name, and its fields in the
/// order of the text where it is a table.
#[derive(Debug)]
pub struct Section {
    pub name: String,
    pub fields: Option<Vec<(String, Field)>>,
}

/// What a section holds.
pub struct SectionView {
    pub name: Seq<char>,
    pub fields: Option<Fields>,
}

impl View for Section {
    type V = SectionView;

    open spec fn view(&self) -> SectionView {
        SectionView {
            name: self.name@,
            fields: match self.fields {
                Some(fields) => Some(field_views(fields@)),
                None => None,
            },
        }
    }
}

/// What a list of sections holds.
pub open spec fn section_views(sections: Seq<Section>) -> Seq<SectionView> {
    Seq::new(sections.len(), |i: int| sections[i]@)
}

/// Whether no two sections have the same name.
pub open spec fn distinct_sections(sections: Seq<SectionView>) -> bool {
    forall|i: int, j: int|
        0 <= i < j < sections.len() ==> (#[trigger] sections[i]).name != (
        #[trigger] sections[j]).name
}

/// The entries at the top of a TOML document, in the order of the text, as
/// `toml` parses them; `None` where the text is no TOML document.
pub uninterp spec fn sections(text: Seq<char>) -> Option<Seq<SectionView>>;

/// `str::parse` into a `toml::Value`, which keeps the order of the text, and
/// its entries handed out: each top-level name, and for a table its fields.
/// What comes back depends on the text alone, and a document has no name
/// twice at its top.
#[verifier::external_body]
pub(crate) fn parse_sections(text: &str) -> (parsed: Option<Vec<Section>>)
    ensures
        match parsed {
            Some(parsed) => sections(text@) == Some(section_views(parsed@)) && distinct_sections(
                section_views(parsed@),
            ),
            None => sections(text@) is None,
        },
{
    let document = text.parse::<toml::Value>().ok()?;
    let entries = document.as_table()?.iter().map(|(name, value)| Section {
        name: name.clone(),
        fields: value.as_table().map(|table| table.iter().map(|(key, value)| (key.clone(),
            match value {
                toml::Value::String(text) => Field::Text(text.clone()),
                toml::Value::Array(items) => Field::List(
                    items.iter().map(|item| item.as_str().map(String::from)).collect()),
                _ => Field::Other,
            })).collect()),
    });
    Some(entries.collect())
}

/// The first field of that name, if there is one.
pub open spec fn field_named(fields: Fields, name: Seq<char>) -> Option<
    FieldView,
>
    decreases fields.len(),
{
    if fields.len() == 0 {
        None
    } else if fields[0].0 == name {
        Some(fields[0].1)
    } else {
        field_named(fields.drop_first(), name)
    }
}

/// Whether every item of a list is a text.
pub open spec fn all_texts(items: Seq<Option<Seq<char>>>) -> bool {
    forall|i: int| 0 <= i < items.len() ==> (#[trigger] items[i]) is Some
}

/// The texts of a list of texts.
pub open spec fn texts(items: Seq<Option<Seq<char>>>) -> Seq<Seq<char>> {
    Seq::new(
        items.len(),
        |i: int|
            match items[i] {
                Some(text) => text,
                None => Seq::empty(),
            },
    )
}

/// What an optional field holds.
pub open spec fn field_option_view(field: Option<&Field>) -> Option<FieldView> {
    match field {
        Some(field) => Some(field@),
        None => None,
    }
}

/// The first field of that name, if there is one.
pub fn find_field<'a>(fields: &'a Vec<(String, Field)>, name: &str) -> (found: Option<&'a Field>)
    ensures
        match found {
            Some(field) => field_named(field_views(fields@), name@) == Some(field@),
            None => field_named(field_views(fields@), name@) is None,
        },
{
    let wanted = String::from_str(name);
    let ghost all = field_views(fields@);
    let mut at: usize = 0;
    assert(all.skip(0) =~= all);
    while at < fields.len()
        invariant
            at <= fields.len(),
            all == field_views(fields@),
            wanted@ == name@,
            field_named(all, name@) == field_named(all.skip(at as int), name@),
        decreases fields.len() - at,
    {
        assert(all.skip(at as int)[0] == all[at as int]);
        assert(all.skip(at as int).drop_first() =~= all.skip(at + 1));
        if fields[at].0 == wanted {
            return Some(&fields[at].1);
        }
        at = at + 1;
    }
    None
}

} // verus!
