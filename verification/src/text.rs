//! Building the small strings the library needs: decimal renderings of
//! addresses and bus numbers, and default descriptions such as `Light 3`.

use vstd::prelude::*;

verus! {

/// ASCII decimal digits of `n`, most significant first.
pub open spec fn spec_dec_digits(n: int) -> Seq<u8>
    recommends
        n >= 0,
    decreases n,
{
    if n < 10 {
        seq![(0x30 + n) as u8]
    } else {
        spec_dec_digits(n / 10).push((0x30 + n % 10) as u8)
    }
}

/// The same digits as characters.
pub open spec fn spec_dec_chars(n: int) -> Seq<char> {
    spec_dec_digits(n).map(|i: int, b: u8| b as char)
}

/// Append the decimal digits of `n` to `out`.
pub fn push_dec_digits(out: &mut Vec<u8>, n: u64)
    ensures
        final(out)@ == old(out)@ + spec_dec_digits(n as int),
    decreases n,
{
    if n >= 10 {
        push_dec_digits(out, n / 10);
    }
    out.push(0x30 + (n % 10) as u8);
    proof {
        assert(out@ =~= old(out)@ + spec_dec_digits(n as int));
    }
}

/// Every decimal digit byte is printable ASCII.
pub proof fn lemma_dec_digits_ascii(n: int)
    requires
        n >= 0,
    ensures
        forall|i: int|
            0 <= i < spec_dec_digits(n).len() ==> 0x30 <= #[trigger] spec_dec_digits(n)[i]
                <= 0x39,
    decreases n,
{
    if n < 10 {
        assert(spec_dec_digits(n) =~= seq![(0x30 + n) as u8]);
    } else {
        lemma_dec_digits_ascii(n / 10);
        let prefix = spec_dec_digits(n / 10);
        assert(spec_dec_digits(n) =~= prefix.push((0x30 + n % 10) as u8));
        assert forall|i: int| 0 <= i < spec_dec_digits(n).len() implies 0x30
            <= #[trigger] spec_dec_digits(n)[i] <= 0x39 by {
            if i < prefix.len() {
                assert(spec_dec_digits(n)[i] == prefix[i]);
            }
        }
    }
}

/// Relies on `String::from_utf8`: a vector of ASCII bytes is valid UTF-8
/// and decodes to exactly those characters.
#[verifier::external_body]
pub(crate) fn string_from_ascii(bytes: Vec<u8>) -> (s: String)
    requires
        forall|i: int| 0 <= i < bytes@.len() ==> bytes@[i] < 128,
    ensures
        s@ == bytes@.map(|i: int, b: u8| b as char),
{
    String::from_utf8(bytes).unwrap_or_default()
}

/// The decimal rendering of `n` as a string.
pub fn dec_string(n: u64) -> (s: String)
    ensures
        s@ == spec_dec_chars(n as int),
{
    let mut bytes: Vec<u8> = Vec::new();
    push_dec_digits(&mut bytes, n);
    proof {
        lemma_dec_digits_ascii(n as int);
    }
    string_from_ascii(bytes)
}

/// Default description of a light: `Light ` followed by its address.
pub open spec fn spec_light_description(short_address: u8) -> Seq<char> {
    "Light "@ + spec_dec_chars(short_address as int)
}

pub fn light_description(short_address: u8) -> (s: String)
    ensures
        s@ == spec_light_description(short_address),
{
    let mut s = String::from_str("Light ");
    s.append(dec_string(short_address as u64).as_str());
    s
}

/// Default description of a group: `Group ` followed by its address.
pub open spec fn spec_group_description(group_address: u8) -> Seq<char> {
    "Group "@ + spec_dec_chars(group_address as int)
}

pub fn group_description(group_address: u8) -> (s: String)
    ensures
        s@ == spec_group_description(group_address),
{
    let mut s = String::from_str("Group ");
    s.append(dec_string(group_address as u64).as_str());
    s
}

/// Default description of a group created by pattern matching.
pub open spec fn spec_new_group_description(group_address: u8) -> Seq<char> {
    "New-Group "@ + spec_dec_chars(group_address as int)
}

pub fn new_group_description(group_address: u8) -> (s: String)
    ensures
        s@ == spec_new_group_description(group_address),
{
    let mut s = String::from_str("New-Group ");
    s.append(dec_string(group_address as u64).as_str());
    s
}

/// Default description of a bus: `Bus-` followed by its one-based number.
pub open spec fn spec_bus_description(bus_number: int) -> Seq<char> {
    "Bus-"@ + spec_dec_chars(bus_number + 1)
}

pub fn bus_description(bus_number: usize) -> (s: String)
    requires
        bus_number < 0xffff,
    ensures
        s@ == spec_bus_description(bus_number as int),
{
    let mut s = String::from_str("Bus-");
    s.append(dec_string(bus_number as u64 + 1).as_str());
    s
}

} // verus!
