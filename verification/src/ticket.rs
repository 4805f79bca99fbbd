//! Tickets: the text that a host hands out and a friend pastes in.
//!
//! A ticket carries the address of the host as bytes. Its text is the word `endpoint` and then
//! these bytes in base 32.

use vstd::prelude::*;
use vstd::slice::slice_subrange;
use vstd::string::*;

use iroh_tickets::endpoint::EndpointTicket;
use iroh_tickets::{ParseError, Ticket};

use crate::base32::{
    base32, decode, decoded, eight, encode, group, law_base32_reads_back, lemma_symbol, value,
    value_at,
};
use crate::text::{chars_of, is_white_space, law_trim_takes_padding, trim};

verus! {

/// The error of reading a ticket. Nothing is known of what it holds.
#[verifier::external_type_specification]
#[verifier::external_body]
pub struct ExParseError(ParseError);

/// The text of the ticket that carries `bytes`.
pub open spec fn ticket_text(bytes: Seq<u8>) -> Seq<char> {
    "endpoint"@ + base32(bytes)
}

/// The small letter for a capital; any other character is left alone.
pub open spec fn small(c: char) -> char {
    if 'A' <= c <= 'Z' {
        (c as u32 - 'A' as u32 + 'a' as u32) as char
    } else {
        c
    }
}

/// Whether `text` carries `bytes`: behind the word `endpoint`, it writes them in base 32, with
/// small letters or capitals.
pub open spec fn carries(text: Seq<char>, bytes: Seq<u8>) -> bool {
    &&& "endpoint"@.is_prefix_of(text)
    &&& text.skip("endpoint"@.len() as int).map_values(|c: char| small(c)) == base32(bytes)
}

/// The bytes that `text` carries; nothing where it carries none.
pub open spec fn carried(text: Seq<char>) -> Option<Seq<u8>> {
    if exists|bytes: Seq<u8>| carries(text, bytes) {
        Some(choose|bytes: Seq<u8>| carries(text, bytes))
    } else {
        None
    }
}

/// The address that `EndpointTicket::from_str` reads from a text that carries `bytes`, as
/// `Ticket::encode_bytes` writes it again; nothing where the bytes are no address. An address may
/// be written in other bytes than it was read from.
pub uninterp spec fn address_in(bytes: Seq<u8>) -> Option<Seq<u8>>;

/// The address that a ticket with the text `text` names; nothing where the text is no ticket.
pub open spec fn ticket_in(text: Seq<char>) -> Option<Seq<u8>> {
    match carried(text) {
        Some(bytes) => address_in(bytes),
        None => None,
    }
}

/// `EndpointTicket::from_str`, with the address as the bytes of `Ticket::encode_bytes`. Claimed is
/// that a text is accepted only where it is the word `endpoint` and then bytes in base 32 without
/// padding, in letters of either case; and that whether such a text is accepted, and the address
/// that comes out, depend on these bytes alone. It is left unsaid which bytes are an address, and
/// when an address is written in the bytes that it was read from.
#[verifier::external_body]
fn parse_ticket(text: &str) -> (r: Result<Vec<u8>, ParseError>)
    ensures
        r is Ok <==> ticket_in(text@) is Some,
        r matches Ok(bytes) ==> address_in(carried(text@)->0) == Some(bytes@),
{
    match text.parse::<EndpointTicket>() {
        Ok(ticket) => Ok(ticket.encode_bytes()),
        Err(error) => Err(error),
    }
}

/// What was given for a ticket is none.
#[derive(Debug)]
pub struct InvalidTicket;

/// The text of the ticket that carries `bytes`, for the host to hand out.
pub fn host_ticket(bytes: &[u8]) -> (r: String)
    ensures
        r@ == ticket_text(bytes@),
{
    "endpoint".to_owned().concat(encode(bytes).as_str())
}

/// The bytes that the ticket with the text `text` carries, for the friend to call the host by. A
/// text that carries none, or none that are an address, is no ticket.
pub fn read_ticket(text: &str) -> (r: Result<Vec<u8>, InvalidTicket>)
    ensures
        r is Ok <==> ticket_in(text@) is Some,
        r matches Ok(bytes) ==> carried(text@) == Some(bytes@),
{
    match parse_ticket(text) {
        Ok(_) => {
            let cs = chars_of(text);
            proof {
                reveal_strlit("endpoint");
                let bytes = choose|bytes: Seq<u8>| carries(text@, bytes);
                lemma_carried(text@, bytes);
                assert(cs@.subrange(8, cs@.len() as int) =~= text@.skip(8));
            }
            Ok(decode(slice_subrange(cs.as_slice(), 8, cs.len())))
        },
        Err(_) => Err(InvalidTicket),
    }
}

/// Tests whether a ticket with the text `text` names the address with the bytes `bytes`.
pub fn reads_back(bytes: &[u8], text: &str) -> (r: bool)
    ensures
        r == (ticket_in(text@) == Some(bytes@)),
{
    match parse_ticket(text) {
        Ok(found) => same_bytes(found.as_slice(), bytes),
        Err(_) => false,
    }
}

/// Tests whether `a` and `b` hold the same bytes.
fn same_bytes(a: &[u8], b: &[u8]) -> (r: bool)
    ensures
        r == (a@ == b@),
{
    if a.len() != b.len() {
        return false;
    }
    for i in 0..a.len()
        invariant
            a@.len() == b@.len(),
            forall|j: int| 0 <= j < i ==> a@[j] == b@[j],
    {
        if a[i] != b[i] {
            return false;
        }
    }
    assert(a@ =~= b@);
    true
}

/// A text carries no other bytes than those that its base 32 decodes to.
proof fn lemma_carried(text: Seq<char>, bytes: Seq<u8>)
    requires
        carries(text, bytes),
    ensures
        carried(text) == Some(bytes),
        decoded(text.skip("endpoint"@.len() as int)) == bytes,
{
    let rest = text.skip("endpoint"@.len() as int);
    assert forall|other: Seq<u8>| carries(text, other) implies decoded(rest) == other by {
        let smalls = rest.map_values(|c: char| small(c));
        assert forall|i: int| value_at(smalls, i) == #[trigger] value_at(rest, i) by {
            if 0 <= i < rest.len() {
                assert(smalls[i] == small(rest[i]));
                assert(value(small(rest[i])) == value(rest[i]));
            }
        }
        assert forall|j: int| eight(smalls, j) == #[trigger] eight(rest, j) by {
            let i = 8 * j / 5;
            assert(value_at(smalls, i) == value_at(rest, i));
            assert(value_at(smalls, i + 1) == value_at(rest, i + 1));
            assert(value_at(smalls, i + 2) == value_at(rest, i + 2));
        }
        assert(decoded(smalls) =~= decoded(rest));
        law_base32_reads_back(other);
    }
}

/// Base 32 is small letters and digits.
proof fn lemma_base32_symbols(bytes: Seq<u8>)
    ensures
        forall|i: int|
            0 <= i < base32(bytes).len() ==> 'a' <= #[trigger] base32(bytes)[i] <= 'z' || '2'
                <= base32(bytes)[i] <= '7',
{
    assert forall|i: int| 0 <= i < base32(bytes).len() implies 'a' <= #[trigger] base32(bytes)[i]
        <= 'z' || '2' <= base32(bytes)[i] <= '7' by {
        lemma_symbol(group(bytes, i));
    }
}

/// Whatever bytes the host's address has, the text that it hands out carries exactly these bytes.
/// So the friend reads what the host's own bytes read as, and this is the host's address wherever
/// the address is written in the bytes that it is read from.
pub proof fn law_ticket_carries_the_address(bytes: Seq<u8>)
    ensures
        carried(ticket_text(bytes)) == Some(bytes),
        ticket_in(ticket_text(bytes)) == address_in(bytes),
        address_in(bytes) == Some(bytes) ==> ticket_in(ticket_text(bytes)) == Some(bytes),
{
    let text = ticket_text(bytes);
    let rest = text.skip("endpoint"@.len() as int);
    assert("endpoint"@.is_prefix_of(text));
    assert(rest =~= base32(bytes));
    lemma_base32_symbols(bytes);
    assert(rest.map_values(|c: char| small(c)) =~= base32(bytes));
    lemma_carried(text, bytes);
}

/// Tickets that carry different bytes have different texts.
pub proof fn law_tickets_differ(a: Seq<u8>, b: Seq<u8>)
    requires
        ticket_text(a) == ticket_text(b),
    ensures
        a == b,
{
    law_ticket_carries_the_address(a);
    law_ticket_carries_the_address(b);
}

/// A ticket that is pasted in with white space around it arrives as the host handed it out, and
/// carries the host's bytes.
pub proof fn law_pasted_ticket_arrives(before: Seq<char>, bytes: Seq<u8>, after: Seq<char>)
    requires
        forall|i: int| 0 <= i < before.len() ==> is_white_space(#[trigger] before[i]),
        forall|i: int| 0 <= i < after.len() ==> is_white_space(#[trigger] after[i]),
    ensures
        trim(before + ticket_text(bytes) + after) == ticket_text(bytes),
        carried(trim(before + ticket_text(bytes) + after)) == Some(bytes),
        ticket_in(trim(before + ticket_text(bytes) + after)) == address_in(bytes),
{
    let text = ticket_text(bytes);
    reveal_strlit("endpoint");
    lemma_base32_symbols(bytes);
    assert(text[0] == 'e');
    if base32(bytes).len() > 0 {
        assert(text.last() == base32(bytes)[base32(bytes).len() - 1]);
    }
    law_trim_takes_padding(before, text, after);
    law_ticket_carries_the_address(bytes);
}

/// The text of a ticket is the word `endpoint` and then small letters and digits, eight of them for
/// five bytes.
pub proof fn law_ticket_text_form(bytes: Seq<u8>)
    ensures
        ticket_text(bytes).len() == 8 + (8 * bytes.len() + 4) / 5,
        ticket_text(bytes).take(8) == "endpoint"@,
        forall|i: int|
            0 <= i < ticket_text(bytes).len() ==> 'a' <= #[trigger] ticket_text(bytes)[i] <= 'z'
                || '2' <= ticket_text(bytes)[i] <= '7',
{
    reveal_strlit("endpoint");
    lemma_base32_symbols(bytes);
    let text = ticket_text(bytes);
    assert(text.take(8) =~= "endpoint"@);
    assert forall|i: int| 0 <= i < text.len() implies 'a' <= #[trigger] text[i] <= 'z' || '2'
        <= text[i] <= '7' by {
        if i >= 8 {
            assert(text[i] == base32(bytes)[i - 8]);
        }
    }
}

/// A text carries bytes exactly where it is the text of their ticket, up to capitals behind the
/// word `endpoint`.
pub proof fn law_carried_up_to_capitals(text: Seq<char>, bytes: Seq<u8>)
    ensures
        carried(text) == Some(bytes) <==> {
            &&& text.len() == ticket_text(bytes).len()
            &&& text.take(8) == "endpoint"@
            &&& forall|i: int|
                8 <= i < text.len() ==> #[trigger] text[i] == ticket_text(bytes)[i] || ('A'
                    <= text[i] <= 'Z' && text[i] as u32 + 32 == ticket_text(bytes)[i] as u32)
        },
{
    reveal_strlit("endpoint");
    law_ticket_text_form(bytes);
    lemma_base32_symbols(bytes);
    let whole = ticket_text(bytes);
    let rest = text.skip(8);
    let smalls = rest.map_values(|c: char| small(c));
    if carried(text) == Some(bytes) {
        assert(carries(text, bytes));
        assert(text.take(8) =~= "endpoint"@);
        assert(smalls.len() == rest.len());
        assert forall|i: int| 8 <= i < text.len() implies #[trigger] text[i] == whole[i] || ('A'
            <= text[i] <= 'Z' && text[i] as u32 + 32 == whole[i] as u32) by {
            assert(smalls[i - 8] == small(text[i]));
            assert(whole[i] == base32(bytes)[i - 8]);
        }
    }
    if text.len() == whole.len() && text.take(8) == "endpoint"@ && (forall|i: int|
        8 <= i < text.len() ==> #[trigger] text[i] == whole[i] || ('A' <= text[i] <= 'Z'
            && text[i] as u32 + 32 == whole[i] as u32)) {
        assert("endpoint"@.is_prefix_of(text));
        assert forall|i: int| 0 <= i < rest.len() implies smalls[i] == base32(bytes)[i] by {
            assert(rest[i] == text[i + 8]);
            assert(whole[i + 8] == base32(bytes)[i]);
        }
        assert(smalls =~= base32(bytes));
        lemma_carried(text, bytes);
    }
}

/// A text is a ticket exactly where it carries the bytes of an address, and names that address.
pub proof fn law_ticket_is_an_address_carried(text: Seq<char>, bytes: Seq<u8>)
    ensures
        carried(text) == Some(bytes) ==> ticket_in(text) == address_in(bytes),
        carried(text) is None ==> ticket_in(text) is None,
{
}

} // verus!
