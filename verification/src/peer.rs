//! The short names of peers.

use vstd::prelude::*;

verus! {

/// How many bytes of a peer's key its name shows.
pub const LABEL_BYTES: usize = 5;

/// The small hexadecimal digit for a number below sixteen.
pub open spec fn hex_digit(n: int) -> char {
    if n < 10 {
        ('0' as u32 + n) as char
    } else {
        ('a' as u32 + n - 10) as char
    }
}

/// The short name of the peer with the public key `id`: its first bytes in hexadecimal, each with
/// the upper half first.
pub open spec fn label(id: Seq<u8>) -> Seq<char> {
    Seq::new(
        (2 * LABEL_BYTES) as nat,
        |i: int|
            if i % 2 == 0 {
                hex_digit(id[i / 2] as int / 16)
            } else {
                hex_digit(id[i / 2] as int % 16)
            },
    )
}

/// The small hexadecimal digit for a number below sixteen.
fn hex_digit_of(n: u8) -> (r: char)
    requires
        n < 16,
    ensures
        r == hex_digit(n as int),
{
    match n {
        0 => '0',
        1 => '1',
        2 => '2',
        3 => '3',
        4 => '4',
        5 => '5',
        6 => '6',
        7 => '7',
        8 => '8',
        9 => '9',
        10 => 'a',
        11 => 'b',
        12 => 'c',
        13 => 'd',
        14 => 'e',
        _ => 'f',
    }
}

/// The short name of the peer with the public key `id`.
pub fn peer_label(id: &[u8; 32]) -> (r: String)
    ensures
        r@ == label(id@),
{
    let mut out = String::new();
    for i in 0..LABEL_BYTES
        invariant
            out@ == label(id@).take(2 * i),
    {
        let b: u8 = id[i];
        out.push(hex_digit_of(b / 16));
        out.push(hex_digit_of(b % 16));
        assert((2 * i) / 2 == i && (2 * i + 1) / 2 == i);
        assert(out@ =~= label(id@).take(2 * (i + 1)));
    }
    assert(label(id@).take(2 * LABEL_BYTES as int) =~= label(id@));
    out
}

/// Short names are small hexadecimal digits.
pub proof fn lemma_label_digits(id: Seq<u8>)
    ensures
        label(id).len() == 2 * LABEL_BYTES,
        forall|i: int|
            0 <= i < label(id).len() ==> '0' <= #[trigger] label(id)[i] <= '9' || 'a' <= label(
                id,
            )[i] <= 'f',
{
}

/// Peers whose keys begin alike, and only they, share a short name.
pub proof fn law_label_tells_keys_apart(a: Seq<u8>, b: Seq<u8>)
    requires
        a.len() >= LABEL_BYTES,
        b.len() >= LABEL_BYTES,
    ensures
        label(a) == label(b) <==> a.take(LABEL_BYTES as int) == b.take(LABEL_BYTES as int),
{
    if label(a) == label(b) {
        assert forall|k: int| 0 <= k < LABEL_BYTES implies a[k] == b[k] by {
            assert(label(a)[2 * k] == label(b)[2 * k]);
            assert(label(a)[2 * k + 1] == label(b)[2 * k + 1]);
            assert((2 * k) / 2 == k && (2 * k + 1) / 2 == k);
        }
        assert(a.take(LABEL_BYTES as int) =~= b.take(LABEL_BYTES as int));
    } else if a.take(LABEL_BYTES as int) == b.take(LABEL_BYTES as int) {
        assert forall|k: int| 0 <= k < LABEL_BYTES implies a[k] == b[k] by {
            assert(a.take(LABEL_BYTES as int)[k] == b.take(LABEL_BYTES as int)[k]);
        }
        assert(label(a) =~= label(b));
    }
}

/// A short name spells the first five bytes of the key, two hexadecimal digits each, the upper half
/// first.
pub proof fn law_label_spells_the_key(id: Seq<u8>, k: int)
    requires
        0 <= k < 5,
    ensures
        label(id).len() == 10,
        label(id)[2 * k] == "0123456789abcdef"@[id[k] as int / 16],
        label(id)[2 * k + 1] == "0123456789abcdef"@[id[k] as int % 16],
{
    reveal_strlit("0123456789abcdef");
    assert((2 * k) / 2 == k && (2 * k + 1) / 2 == k);
}

} // verus!
