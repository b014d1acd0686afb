//! The wire format: a record sequence becomes the text of an Intel HEX
//! object file.

use crate::frame::bases_within;
use crate::frame::frames;
use crate::frame::lemma_frames_well_formed;
use crate::frame::models;
use crate::frame::Frame;
use crate::frame::FrameModel;
use ihex::Record;
use ihex::WriterError;
use vstd::prelude::*;

verus! {

/// The largest address base that an address record of the wire format holds.
pub const MAX_BASE: u64 = 0xFFFF;

/// Declares `ihex::WriterError`, the codec's reason for a refusal.  Nothing
/// is read from a value of it.
#[verifier::external_type_specification]
#[verifier::external_body]
pub struct ExWriterError(WriterError);

/// The text of the object file that holds `records`, one line for each
/// record: what `ihex::create_object_file_representation` returns for them
/// where it accepts them.
pub uninterp spec fn object_file_text(records: Seq<FrameModel>) -> Seq<char>;

/// What the codec asks of a record sequence: it ends in a terminator, holds
/// no other, and no data record carries more than 255 bytes.
pub open spec fn accepted(records: Seq<FrameModel>) -> bool {
    &&& records.len() > 0
    &&& records.last() is EndOfFile
    &&& forall|i: int| 0 <= i < records.len() - 1 ==> !(#[trigger] records[i] is EndOfFile)
    &&& forall|i: int|
        0 <= i < records.len() ==> (#[trigger] records[i] matches FrameModel::Data {
            payload,
            ..
        } ==> payload.len() <= 255)
}

/// What is encoded ends in its only terminator and keeps to 255 bytes in
/// each data record: the codec takes it.
pub proof fn lemma_encoded_is_accepted(bytes: Seq<u8>)
    ensures
        accepted(frames(bytes)),
{
    lemma_frames_well_formed(bytes);
}

/// Why a record sequence has no object file.
#[derive(Debug, PartialEq, Eq, Clone, Copy, Structural)]
pub enum AssemblyError {
    /// An address base does not fit the 16 bits that the wire format has
    /// for it.
    AddressOutOfRange,
    /// The codec refused the records.
    Rejected,
}

/// Calls `ihex::create_object_file_representation` on the records, each
/// turned into the codec's own record of the same kind (an address base
/// becomes an extended linear address).  The contract claims what the
/// codec's source shows: it fails exactly on a sequence that does not end in
/// its only terminator or that holds a data record of more than 255 bytes,
/// and the text it returns depends on the records alone.
#[verifier::external_body]
fn object_file_representation(records: &Vec<Frame>) -> (r: Result<String, WriterError>)
    requires
        bases_within(models(records@), MAX_BASE as nat),
    ensures
        r is Ok <==> accepted(models(records@)),
        r matches Ok(text) ==> text@ == object_file_text(models(records@)),
{
    let converted: Vec<Record> = records
        .iter()
        .map(|f| match f {
            Frame::ExtendedAddress(base) => Record::ExtendedLinearAddress(*base as u16),
            Frame::Data { offset, payload } => Record::Data { offset: *offset, value: payload.clone() },
            Frame::EndOfFile => Record::EndOfFile,
        })
        .collect();
    ihex::create_object_file_representation(&converted)
}

/// Whether every address base among `records` fits the wire format.
pub fn bases_fit(records: &Vec<Frame>) -> (fit: bool)
    ensures
        fit == bases_within(models(records@), MAX_BASE as nat),
{
    let mut i: usize = 0;
    while i < records.len()
        invariant
            i <= records.len(),
            forall|j: int|
                0 <= j < i ==> (#[trigger] models(records@)[j] matches FrameModel::ExtendedAddress(
                    base,
                ) ==> base <= MAX_BASE),
        decreases records.len() - i,
    {
        match &records[i] {
            Frame::ExtendedAddress(base) => {
                if *base > MAX_BASE {
                    assert(models(records@)[i as int] == FrameModel::ExtendedAddress(*base as nat));
                    return false;
                }
            },
            _ => {},
        }
        i = i + 1;
    }
    true
}

/// The object file of `records`, where they have one.
pub fn assemble(records: &Vec<Frame>) -> (r: Result<String, AssemblyError>)
    ensures
        match r {
            Ok(text) => {
                &&& bases_within(models(records@), MAX_BASE as nat)
                &&& accepted(models(records@))
                &&& text@ == object_file_text(models(records@))
            },
            Err(AssemblyError::AddressOutOfRange) => !bases_within(
                models(records@),
                MAX_BASE as nat,
            ),
            Err(AssemblyError::Rejected) => {
                &&& bases_within(models(records@), MAX_BASE as nat)
                &&& !accepted(models(records@))
            },
        },
{
    if !bases_fit(records) {
        return Err(AssemblyError::AddressOutOfRange);
    }
    match object_file_representation(records) {
        Ok(text) => Ok(text),
        Err(_) => Err(AssemblyError::Rejected),
    }
}

} // verus!
