use crate::protocol::types::Protocol;
use crate::replay::buffer::BitPackedBuff;
use crate::replay::cursor::Cursor;
use crate::replay::decoders::{same_stream, stops_behind_wrong_tag, versioned_decode};
use crate::replay::error::DecodeError;
use crate::replay::grammar::{default_limits, field_at, Dialect};
use crate::replay::types::{ParsedField, ParsedFieldView};
use vstd::prelude::*;

verus! {

/// A decoder of the versioned dialect that owns its cursor.
pub struct Decoder<'a> {
    pub buffer: BitPackedBuff<'a>,
}

impl<'a> View for Decoder<'a> {
    type V = Cursor;

    open spec fn view(&self) -> Cursor {
        self.buffer@
    }
}

impl<'a> Decoder<'a> {
    /// A decoder that reads on from where `buffer` stands.
    pub fn new(buffer: BitPackedBuff<'a>) -> (decoder: Self)
        ensures
            decoder@ == buffer@,
    {
        Self { buffer }
    }

    /// Decodes the field named `name` whose value has the type at `type_index`, within the
    /// default limits, and hands out the cursor behind it with the field.
    pub fn decode(&mut self, name: &str, type_index: usize, protocol: &Protocol) -> (res: Result<
        (BitPackedBuff<'a>, ParsedField),
        DecodeError,
    >)
        requires
            old(self)@.wf(),
        ensures
            final(self)@.wf(),
            same_stream(old(self)@, final(self)@),
            stops_behind_wrong_tag(res, final(self)@),
            match res {
                Ok((rest, field)) => rest@ == final(self)@ && field_at(
                    Dialect::Versioned,
                    protocol@.type_infos,
                    default_limits(),
                    name@,
                    type_index,
                    old(self)@,
                ) == Ok::<(ParsedFieldView, Cursor), DecodeError>((field@, final(self)@)),
                Err(e) => field_at(
                    Dialect::Versioned,
                    protocol@.type_infos,
                    default_limits(),
                    name@,
                    type_index,
                    old(self)@,
                ) == Err::<(ParsedFieldView, Cursor), DecodeError>(e),
            },
    {
        match versioned_decode(name, type_index, protocol, &mut self.buffer) {
            Ok(field) => Ok((self.buffer, field)),
            Err(e) => Err(e),
        }
    }
}

} // verus!
