//! The payment record of the demo program, and its byte encoding.
//!
//! A record is 36 bytes: `payment_id` (i32), `payment_name` (24 bytes,
//! NUL-padded), `payment_time` (u32) and `total_cents` (u32), each integer
//! little-endian, with no padding between fields.
use crate::bytes::{le_bytes, lemma_le_bytes_round_trip, push_u32_le, read_u32_le, u32_at};
use vstd::prelude::*;
use vstd::string::StringSliceAdditionalSpecFns;
use vstd::utf8::valid_utf8;

verus! {

/// Bytes in the name field of a payment record.
pub const PAYMENT_NAME_LEN: usize = 24;

/// Bytes in an encoded payment record.
pub const PAYMENT_RECORD_SIZE: usize = 36;

/// A payment, as stored in a table record.
#[derive(Debug, Clone, Copy, PartialEq, Eq)]
pub struct PaymentData {
    pub payment_id: i32,
    pub payment_name: [u8; 24],
    pub payment_time: u32,
    pub total_cents: u32,
}

/// The name field holding `name`: its first 24 bytes, then zeros.
pub open spec fn name_field(name: Seq<u8>) -> Seq<u8> {
    Seq::new(24, |i: int| if i < name.len() { name[i] } else { 0u8 })
}

/// The encoding of a payment record.
pub open spec fn payment_bytes(p: PaymentData) -> Seq<u8> {
    le_bytes(p.payment_id as u32) + p.payment_name@ + le_bytes(p.payment_time) + le_bytes(
        p.total_cents,
    )
}

/// `p` is the payment encoded by the first 36 bytes of `b`.
pub open spec fn decodes_to(b: Seq<u8>, p: PaymentData) -> bool {
    &&& p.payment_id == (u32_at(b, 0) as u32) as i32
    &&& p.payment_name@ == b.subrange(4, 28)
    &&& p.payment_time == u32_at(b, 28)
    &&& p.total_cents == u32_at(b, 32)
}

/// Length of the NUL-terminated name in a name field: the index of the first
/// zero byte, or the whole field when there is none.
pub open spec fn is_name_len(field: Seq<u8>, n: int) -> bool {
    &&& 0 <= n <= field.len()
    &&& forall|j: int| 0 <= j < n ==> #[trigger] field[j] != 0
    &&& n == field.len() || field[n] == 0
}

/// `s` is what shows the name held in `field`: the bytes before its first
/// NUL, when they are UTF-8; `"<invalid>"` when they are not.
pub open spec fn shows_name(field: Seq<u8>, s: &str) -> bool {
    forall|n: int|
        #[trigger] is_name_len(field, n) ==> if valid_utf8(field.take(n)) {
            s.spec_bytes() == field.take(n)
        } else {
            s@ == "<invalid>"@
        }
}

/// Calls `std::str::from_utf8`. Claims that it succeeds exactly when the
/// bytes are valid UTF-8, and that the string it then returns consists of
/// those same bytes.
#[verifier::external_body]
fn str_from_utf8(bytes: &[u8]) -> (r: Option<&str>)
    ensures
        r is Some <==> valid_utf8(bytes@),
        r matches Some(s) ==> s.spec_bytes() == bytes@,
{
    std::str::from_utf8(bytes).ok()
}

impl PaymentData {
    /// Build a payment; the name is truncated to 24 bytes and NUL-padded.
    pub fn new(id: i32, name: &str, time: u32, cents: u32) -> (p: Self)
        ensures
            p.payment_id == id,
            p.payment_name@ == name_field(name.spec_bytes()),
            name.spec_bytes().len() <= 24 ==> p.payment_name@.take(name.spec_bytes().len() as int)
                == name.spec_bytes(),
            forall|i: int|
                name.spec_bytes().len() <= i < 24 ==> #[trigger] p.payment_name@[i] == 0u8,
            name.spec_bytes().len() > 24 ==> p.payment_name@ == name.spec_bytes().take(24),
            p.payment_time == time,
            p.total_cents == cents,
    {
        let mut name_buf = [0u8; 24];
        let bytes = name.as_bytes();
        let copy_len = if bytes.len() < PAYMENT_NAME_LEN {
            bytes.len()
        } else {
            PAYMENT_NAME_LEN
        };
        let mut i: usize = 0;
        while i < copy_len
            invariant
                copy_len <= 24,
                copy_len <= bytes@.len(),
                copy_len == bytes@.len() || copy_len == 24,
                0 <= i <= copy_len,
                forall|j: int| 0 <= j < i ==> #[trigger] name_buf@[j] == bytes@[j],
                forall|j: int| i <= j < 24 ==> #[trigger] name_buf@[j] == 0,
            decreases copy_len - i,
        {
            name_buf[i] = bytes[i];
            i += 1;
        }
        assert(name_buf@ =~= name_field(bytes@));
        proof {
            if bytes@.len() <= 24 {
                assert(name_buf@.take(bytes@.len() as int) =~= bytes@);
            } else {
                assert(name_buf@ =~= bytes@.take(24));
            }
        }
        Self { payment_id: id, payment_name: name_buf, payment_time: time, total_cents: cents }
    }

    /// Encode the record as its 36 bytes.
    pub fn to_bytes(&self) -> (out: Vec<u8>)
        ensures
            out@ == payment_bytes(*self),
            out@.len() == 36,
    {
        let mut out: Vec<u8> = Vec::new();
        push_u32_le(&mut out, self.payment_id as u32);
        let mut i: usize = 0;
        while i < PAYMENT_NAME_LEN
            invariant
                0 <= i <= 24,
                out@ == le_bytes(self.payment_id as u32) + self.payment_name@.take(i as int),
            decreases 24 - i,
        {
            out.push(self.payment_name[i]);
            assert(self.payment_name@.take(i + 1) =~= self.payment_name@.take(i as int).push(
                self.payment_name@[i as int],
            ));
            i += 1;
        }
        assert(self.payment_name@.take(24) =~= self.payment_name@);
        push_u32_le(&mut out, self.payment_time);
        push_u32_le(&mut out, self.total_cents);
        out
    }

    /// Decode a record from the first 36 bytes of `bytes`.
    pub fn from_bytes(bytes: &[u8]) -> (p: Self)
        requires
            bytes@.len() >= 36,
        ensures
            decodes_to(bytes@, p),
    {
        let id = read_u32_le(bytes, 0);
        let mut name = [0u8; 24];
        let mut i: usize = 0;
        while i < PAYMENT_NAME_LEN
            invariant
                0 <= i <= 24,
                bytes@.len() >= 36,
                forall|j: int| 0 <= j < i ==> #[trigger] name@[j] == bytes@[4 + j],
            decreases 24 - i,
        {
            name[i] = bytes[4 + i];
            i += 1;
        }
        assert(name@ =~= bytes@.subrange(4, 28));
        let time = read_u32_le(bytes, 28);
        let cents = read_u32_le(bytes, 32);
        Self { payment_id: id as i32, payment_name: name, payment_time: time, total_cents: cents }
    }

    /// Length of the name: up to its first NUL byte, or all 24 bytes.
    pub fn name_len(&self) -> (n: usize)
        ensures
            is_name_len(self.payment_name@, n as int),
    {
        let mut n: usize = 0;
        while n < PAYMENT_NAME_LEN
            invariant
                0 <= n <= 24,
                forall|j: int| 0 <= j < n ==> #[trigger] self.payment_name@[j] != 0,
            decreases 24 - n,
        {
            if self.payment_name[n] == 0 {
                return n;
            }
            n += 1;
        }
        n
    }

    /// The name as text: the bytes before the first NUL, or `"<invalid>"`
    /// when those bytes are not UTF-8.
    pub fn name_str(&self) -> (s: &str)
        ensures
            exists|n: int|
                is_name_len(self.payment_name@, n) && if valid_utf8(
                    self.payment_name@.take(n),
                ) {
                    s.spec_bytes() == self.payment_name@.take(n)
                } else {
                    s@ == "<invalid>"@
                },
            shows_name(self.payment_name@, s),
    {
        let n = self.name_len();
        let name = self.payment_name.as_slice();
        let prefix = vstd::slice::slice_subrange(name, 0, n);
        assert(prefix@ =~= self.payment_name@.take(n as int));
        proof {
            assert forall|m: int| is_name_len(self.payment_name@, m) implies m == n by {
                law_name_len_is_unique(self.payment_name@, m, n as int);
            }
        }
        match str_from_utf8(prefix) {
            Some(s) => s,
            None => "<invalid>",
        }
    }
}

/// A name field has one name length: the index of its first NUL byte, or
/// its whole length when it holds none.
pub proof fn law_name_len_is_unique(field: Seq<u8>, n1: int, n2: int)
    requires
        is_name_len(field, n1),
        is_name_len(field, n2),
    ensures
        n1 == n2,
{
    if n1 < n2 {
        assert(field[n1] != 0);
    } else if n2 < n1 {
        assert(field[n2] != 0);
    }
}

/// The name field made from a name holds the name itself: for a name of at
/// most 24 bytes, its first `name.len()` bytes are the name's bytes and the
/// rest are zero; for a longer name, it is the name's first 24 bytes.
pub proof fn law_name_field_holds_the_name(name: Seq<u8>)
    ensures
        name_field(name).len() == 24,
        name.len() <= 24 ==> name_field(name).take(name.len() as int) == name,
        forall|i: int| name.len() <= i < 24 ==> #[trigger] name_field(name)[i] == 0u8,
        name.len() > 24 ==> name_field(name) == name.take(24),
{
    if name.len() <= 24 {
        assert(name_field(name).take(name.len() as int) =~= name);
    } else {
        assert(name_field(name) =~= name.take(24));
    }
}

/// A name of at most 24 bytes with no NUL byte in it, stored with zeros
/// after it, has exactly its own length as the name length of the field.
pub proof fn law_stored_name_length(name: Seq<u8>, p: PaymentData)
    requires
        name.len() <= 24,
        forall|j: int| 0 <= j < name.len() ==> #[trigger] name[j] != 0u8,
        p.payment_name@.take(name.len() as int) == name,
        forall|i: int| name.len() <= i < 24 ==> #[trigger] p.payment_name@[i] == 0u8,
    ensures
        is_name_len(p.payment_name@, name.len() as int),
        forall|n: int| #[trigger] is_name_len(p.payment_name@, n) ==> n == name.len(),
{
    let field = p.payment_name@;
    assert forall|j: int| 0 <= j < name.len() implies #[trigger] field[j] != 0 by {
        assert(field.take(name.len() as int)[j] == field[j]);
    }
    assert(is_name_len(field, name.len() as int));
    assert forall|n: int| #[trigger] is_name_len(field, n) implies n == name.len() by {
        law_name_len_is_unique(field, n, name.len() as int);
    }
}

/// A payment that stores a text name of at most 24 bytes with no NUL in it
/// (zeros after it) shows that very name: the text shown has the name's
/// bytes and the name's characters, non-ASCII ones included.
pub proof fn law_shown_name_is_the_name(name: &str, p: PaymentData, s: &str)
    requires
        name.spec_bytes().len() <= 24,
        forall|j: int| 0 <= j < name.spec_bytes().len() ==> #[trigger] name.spec_bytes()[j] != 0u8,
        p.payment_name@.take(name.spec_bytes().len() as int) == name.spec_bytes(),
        forall|i: int| name.spec_bytes().len() <= i < 24 ==> #[trigger] p.payment_name@[i] == 0u8,
        shows_name(p.payment_name@, s),
    ensures
        s.spec_bytes() == name.spec_bytes(),
        s@ == name@,
{
    let b = name.spec_bytes();
    law_stored_name_length(b, p);
    assert(is_name_len(p.payment_name@, b.len() as int));
    vstd::utf8::encode_utf8_valid_utf8(name@);
    vstd::utf8::encode_utf8_decode_utf8(name@);
    vstd::utf8::encode_utf8_decode_utf8(s@);
}

/// Decoding an encoded payment gives back the same payment.
pub proof fn law_payment_round_trip(p: PaymentData, q: PaymentData)
    requires
        decodes_to(payment_bytes(p), q),
    ensures
        payment_bytes(p).len() == 36,
        q == p,
{
    let b = payment_bytes(p);
    lemma_le_bytes_round_trip(p.payment_id as u32);
    lemma_le_bytes_round_trip(p.payment_time);
    lemma_le_bytes_round_trip(p.total_cents);
    let id = p.payment_id;
    assert((id as u32) as i32 == id) by (bit_vector);
    assert(b.subrange(0, 4) =~= le_bytes(id as u32));
    assert(u32_at(b, 0) == u32_at(le_bytes(id as u32), 0));
    assert(b.subrange(4, 28) =~= p.payment_name@);
    assert(b.subrange(28, 32) =~= le_bytes(p.payment_time));
    assert(u32_at(b, 28) == u32_at(le_bytes(p.payment_time), 0));
    assert(b.subrange(32, 36) =~= le_bytes(p.total_cents));
    assert(u32_at(b, 32) == u32_at(le_bytes(p.total_cents), 0));
    assert(q.payment_name =~= p.payment_name);
}

} // verus!
