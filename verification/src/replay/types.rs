use vstd::prelude::*;

verus! {

/// Version block of a replay header.
#[derive(Debug, PartialEq)]
pub struct Version {
    pub flags: u8,
    pub major: u8,
    pub minor: u8,
    pub revision: u8,
    pub build: u32,
    pub base_build: u32,
}

/// User-data block of a replay container.
#[derive(Debug, PartialEq)]
pub struct UserData {
    pub signature: Option<Vec<u8>>,
    pub version: Version,
}

/// A named slot of a decoded tree; `value` is `None` for an optional that was absent.
#[derive(Debug, PartialEq)]
pub struct ParsedField {
    pub name: String,
    pub value: Option<ParsedFieldType>,
}

/// A decoded value.
#[derive(Debug, PartialEq)]
pub enum ParsedFieldType {
    Bool(bool),
    Blob(Vec<u8>),
    Int(i64),
    FourCC([u8; 4]),
    Array(Vec<ParsedFieldType>),
    Struct(Vec<ParsedField>),
    BitArray { bits: usize, data: Vec<u8> },
    Choice { tag: i64, field: Box<ParsedField> },
    Null,
}

/// Mathematical value of a `ParsedField`.
pub struct ParsedFieldView {
    pub name: Seq<char>,
    pub value: Option<ParsedValueView>,
}

/// Mathematical value of a `ParsedFieldType`.
pub enum ParsedValueView {
    Bool(bool),
    Blob(Seq<u8>),
    Int(int),
    FourCC(Seq<u8>),
    Array(Seq<ParsedValueView>),
    Struct(Seq<ParsedFieldView>),
    BitArray { bits: nat, data: Seq<u8> },
    Choice { tag: int, field: Box<ParsedFieldView> },
    Null,
}

/// The mathematical value that `value` stands for.
pub open spec fn value_view(value: ParsedFieldType) -> ParsedValueView
    decreases value,
{
    match value {
        ParsedFieldType::Bool(b) => ParsedValueView::Bool(b),
        ParsedFieldType::Blob(bytes) => ParsedValueView::Blob(bytes@),
        ParsedFieldType::Int(v) => ParsedValueView::Int(v as int),
        ParsedFieldType::FourCC(code) => ParsedValueView::FourCC(code@),
        ParsedFieldType::Array(items) => ParsedValueView::Array(
            Seq::new(
                items@.len(),
                |i: int|
                    if 0 <= i < items@.len() {
                        value_view(items[i])
                    } else {
                        ParsedValueView::Null
                    },
            ),
        ),
        ParsedFieldType::Struct(fields) => ParsedValueView::Struct(
            Seq::new(
                fields@.len(),
                |i: int|
                    if 0 <= i < fields@.len() {
                        field_view(fields[i])
                    } else {
                        ParsedFieldView { name: Seq::empty(), value: None }
                    },
            ),
        ),
        ParsedFieldType::BitArray { bits, data } => ParsedValueView::BitArray {
            bits: bits as nat,
            data: data@,
        },
        ParsedFieldType::Choice { tag, field } => ParsedValueView::Choice {
            tag: tag as int,
            field: Box::new(field_view(*field)),
        },
        ParsedFieldType::Null => ParsedValueView::Null,
    }
}

/// The mathematical value that `field` stands for.
pub open spec fn field_view(field: ParsedField) -> ParsedFieldView
    decreases field,
{
    ParsedFieldView {
        name: field.name@,
        value: match field.value {
            Some(v) => Some(value_view(v)),
            None => None,
        },
    }
}

impl View for ParsedFieldType {
    type V = ParsedValueView;

    open spec fn view(&self) -> ParsedValueView {
        value_view(*self)
    }
}

impl View for ParsedField {
    type V = ParsedFieldView;

    open spec fn view(&self) -> ParsedFieldView {
        field_view(*self)
    }
}

/// The mathematical values of a list of values, in order.
pub open spec fn values_view(values: Seq<ParsedFieldType>) -> Seq<ParsedValueView> {
    Seq::new(values.len(), |i: int| values[i]@)
}

/// The mathematical values of a list of fields, in order.
pub open spec fn members_view(fields: Seq<ParsedField>) -> Seq<ParsedFieldView> {
    Seq::new(fields.len(), |i: int| fields[i]@)
}

/// The mathematical value of a value that may be absent.
pub open spec fn option_view(value: Option<ParsedFieldType>) -> Option<ParsedValueView> {
    match value {
        Some(v) => Some(v@),
        None => None,
    }
}

/// The view of an array is the array of the views of its items.
pub proof fn lemma_array_view(items: Vec<ParsedFieldType>)
    ensures
        ParsedFieldType::Array(items)@ == ParsedValueView::Array(values_view(items@)),
{
    let inner = ParsedFieldType::Array(items)@->Array_0;
    assert(inner =~= values_view(items@));
}

/// The view of a struct is the struct of the views of its members.
pub proof fn lemma_struct_view(fields: Vec<ParsedField>)
    ensures
        ParsedFieldType::Struct(fields)@ == ParsedValueView::Struct(members_view(fields@)),
{
    let inner = ParsedFieldType::Struct(fields)@->Struct_0;
    assert(inner =~= members_view(fields@));
}

/// The view of a field is its name with the view of its value.
pub proof fn lemma_field_view(field: ParsedField)
    ensures
        field@ == (ParsedFieldView { name: field.name@, value: option_view(field.value) }),
{
}

/// The view of a choice is the choice of the view of its field.
pub proof fn lemma_choice_view(tag: i64, field: Box<ParsedField>)
    ensures
        (ParsedFieldType::Choice { tag, field })@ == (ParsedValueView::Choice {
            tag: tag as int,
            field: Box::new(field@),
        }),
{
}

} // verus!
