use crate::protocol::text::{ascii_bytes, first_line, take_until};
use vstd::prelude::*;
use vstd::string::*;
use vstd::utf8::*;

verus! {

/// Which form of the schema a text failed to have.
#[derive(Debug, Clone, Copy, PartialEq, Eq)]
pub enum SyntaxReason {
    /// A line without its line feed.
    LineEnd,
    /// `NAME = K`.
    Constant,
    /// `# ...`.
    Comment,
    /// `from ... import ...`.
    Import,
    /// `('_kind',` at the start of a type descriptor.
    TypeName,
    /// `[(offset,length)`.
    OffsetAndLength,
    /// `[index]` or `),index]`.
    TypeIndex,
    /// `),{tag:('name',index),...`.
    ChoiceFields,
    /// `[[('name',index,tag),...`.
    StructFields,
    /// `id: (index, 'Name'),`.
    EventType,
    /// Two fields of one struct or choice carry the same tag.
    DuplicateTag,
    /// A line at the top level that starts none of the known forms.
    UnknownLine,
}

/// Why a schema was refused.
#[derive(Debug, PartialEq, Eq)]
pub enum SchemaError {
    /// The text at `fragment` does not have the form that `reason` names.
    SchemaSyntaxError { fragment: String, reason: SyntaxReason },
    /// A type descriptor names a kind that the library does not know.
    UnknownTypeKind { name: String },
    /// The schema names a type index outside its type table.
    InvalidIndex { type_index: usize },
}

/// Mathematical value of a `SchemaError`: its texts as bytes.
pub enum SchemaErrorView {
    SchemaSyntaxError { fragment: Seq<u8>, reason: SyntaxReason },
    UnknownTypeKind { name: Seq<u8> },
    InvalidIndex { type_index: usize },
}

impl View for SchemaError {
    type V = SchemaErrorView;

    open spec fn view(&self) -> SchemaErrorView {
        match self {
            SchemaError::SchemaSyntaxError { fragment, reason } => {
                SchemaErrorView::SchemaSyntaxError {
                    fragment: encode_utf8(fragment@),
                    reason: *reason,
                }
            },
            SchemaError::UnknownTypeKind { name } => SchemaErrorView::UnknownTypeKind {
                name: encode_utf8(name@),
            },
            SchemaError::InvalidIndex { type_index } => SchemaErrorView::InvalidIndex {
                type_index: *type_index,
            },
        }
    }
}

/// The error for a text `s` that lacks the form `reason`: it carries the first line of
/// the text.
pub open spec fn syntax_error_at(s: Seq<u8>, reason: SyntaxReason) -> SchemaErrorView {
    SchemaErrorView::SchemaSyntaxError { fragment: first_line(s), reason }
}

/// The error for the text `input`, which lacks the form `reason`.
pub fn syntax_error(input: &str, reason: SyntaxReason) -> (e: SchemaError)
    ensures
        e@ == syntax_error_at(input.spec_bytes(), reason),
{
    proof {
        reveal_strlit("\n");
    }
    let line = match take_until(input, ascii_bytes("\n")) {
        Some((line, _)) => line,
        None => input,
    };
    SchemaError::SchemaSyntaxError { fragment: line.to_owned(), reason }
}

} // verus!
