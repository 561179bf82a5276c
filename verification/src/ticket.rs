//! Reading a ticket: what the receiver learns from the text it was given.

use vstd::prelude::*;
use crate::errors::{ErrorModel, SeyfrError};
use crate::receive::invalid_ticket;

verus! {

/// What a ticket tells the receiver: the root blob's hash, whether the blob
/// is a hash sequence (rather than a raw blob), and the provider's endpoint id.
#[derive(Debug)]
pub struct TicketInfo {
    pub hash: Vec<u8>,
    pub hash_seq: bool,
    pub provider: Vec<u8>,
}

pub struct TicketModel {
    pub hash: Seq<u8>,
    pub hash_seq: bool,
    pub provider: Seq<u8>,
}

impl View for TicketInfo {
    type V = TicketModel;

    open spec fn view(&self) -> TicketModel {
        TicketModel { hash: self.hash@, hash_seq: self.hash_seq, provider: self.provider@ }
    }
}

/// What the ticket decoder of iroh-blobs makes of a text: the ticket's
/// fields, or the decoder's message.
pub uninterp spec fn blob_ticket_decoding(text: Seq<char>) -> Result<TicketModel, Seq<char>>;

pub open spec fn decoded_view(r: Result<TicketInfo, String>) -> Result<TicketModel, Seq<char>> {
    match r {
        Ok(t) => Ok(t@),
        Err(e) => Err(e@),
    }
}

/// Decodes `text` with `BlobTicket`'s `FromStr` (iroh-blobs) and takes its
/// hash, format and provider id as bytes; on failure, the error's `Display`
/// text. Trusted: the result is the decoder's, a function of the text alone,
/// and hashes and endpoint ids are 32 bytes long (`[u8; 32]` in the source).
#[verifier::external_body]
fn decode_blob_ticket(text: &str) -> (r: Result<TicketInfo, String>)
    ensures
        decoded_view(r) == blob_ticket_decoding(text@),
        r matches Ok(t) ==> t.hash@.len() == 32 && t.provider@.len() == 32,
{
    match text.parse::<iroh_blobs::ticket::BlobTicket>() {
        Ok(t) => Ok(TicketInfo {
            hash: t.hash().as_bytes().to_vec(),
            hash_seq: match t.format() {
                iroh_blobs::BlobFormat::HashSeq => true,
                iroh_blobs::BlobFormat::Raw => false,
            },
            provider: t.addr().id.as_bytes().to_vec(),
        }),
        Err(e) => Err(format!("{}", e)),
    }
}

/// The outcome of reading a ticket, given what the decoder made of it.
pub open spec fn ticket_outcome(d: Result<TicketModel, Seq<char>>) -> Result<TicketModel, ErrorModel> {
    match d {
        Ok(t) => Ok(t),
        Err(m) => Err(ErrorModel::InvalidTicket { details: m }),
    }
}

/// A ticket the decoder accepted is taken as it is; a refused one is an
/// invalid-ticket error carrying the decoder's message.
pub fn ticket_or_error(decoded: Result<TicketInfo, String>) -> (r: Result<TicketInfo, SeyfrError>)
    ensures
        match (r, ticket_outcome(decoded_view(decoded))) {
            (Ok(t), Ok(m)) => t@ == m,
            (Err(e), Err(m)) => e@ == m,
            _ => false,
        },
{
    match decoded {
        Ok(t) => Ok(t),
        Err(e) => Err(invalid_ticket(e.as_str())),
    }
}

/// Read the ticket a receiver was given.
pub fn read_ticket(text: &str) -> (r: Result<TicketInfo, SeyfrError>)
    ensures
        match (r, ticket_outcome(blob_ticket_decoding(text@))) {
            (Ok(t), Ok(m)) => t@ == m,
            (Err(e), Err(m)) => e@ == m,
            _ => false,
        },
        r matches Ok(t) ==> t.hash@.len() == 32 && t.provider@.len() == 32,
{
    ticket_or_error(decode_blob_ticket(text))
}

/// A provider's address as iroh hands it out: its endpoint id, relay and
/// direct addresses. The library carries it into the tickets it writes.
#[verifier::external_type_specification]
#[verifier::external_body]
pub struct ExEndpointAddr(iroh::EndpointAddr);

/// The bytes of the endpoint id that an address names (its `id` field,
/// a public key of 32 bytes).
pub uninterp spec fn endpoint_id_of(addr: iroh::EndpointAddr) -> Seq<u8>;

/// A decoding that yields a hash-sequence ticket for `root`, naming the
/// provider whose endpoint id is `provider`.
pub open spec fn decodes_to(d: Result<TicketModel, Seq<char>>, root: Seq<u8>, provider: Seq<u8>) -> bool {
    d matches Ok(t) && t.hash == root && t.hash_seq && t.provider == provider
}

/// `BlobTicket::new(addr, hash, BlobFormat::HashSeq)` (iroh-blobs), written
/// with its `Display`. Trusted: decoding the text gives back a ticket for
/// the same hash in the hash-sequence format, naming the address's endpoint
/// id as provider (`Ticket::serialize` and `Ticket::deserialize` are inverse
/// over `to_bytes`/`from_bytes`, which carry `addr.id`). The relay and direct
/// addresses the text also carries are not stated.
#[verifier::external_body]
fn encode_blob_ticket(addr: &iroh::EndpointAddr, root: &Vec<u8>) -> (r: String)
    requires
        root@.len() == 32,
    ensures
        decodes_to(blob_ticket_decoding(r@), root@, endpoint_id_of(*addr)),
{
    let hash: [u8; 32] = root.as_slice().try_into().unwrap();
    let format = iroh_blobs::BlobFormat::HashSeq;
    iroh_blobs::ticket::BlobTicket::new(addr.clone(), iroh_blobs::Hash::from(hash), format).to_string()
}

/// The ticket a sender hands out for the root blob `root` of a transfer:
/// every ticket is a hash-sequence ticket, and the receiver reads back
/// exactly that root and that provider from it, and accepts its format.
pub fn share_ticket(provider: &iroh::EndpointAddr, root: &Vec<u8>) -> (r: String)
    requires
        root@.len() == 32,
    ensures
        ticket_outcome(blob_ticket_decoding(r@)) matches Ok(t) && t.hash == root@ && t.hash_seq
            && t.provider == endpoint_id_of(*provider),
{
    encode_blob_ticket(provider, root)
}

} // verus!
