use vstd::prelude::*;
use vstd::utf8::*;

verus! {

/// Every byte of `s` is below 0x80.
pub open spec fn all_ascii(s: Seq<u8>) -> bool {
    forall|i: int| 0 <= i < s.len() ==> #[trigger] s[i] < 128
}

/// The characters that an ASCII byte sequence stands for, one per byte.
pub open spec fn ascii_chars(s: Seq<u8>) -> Seq<char> {
    s.map_values(|b: u8| b as char)
}

/// ASCII bytes are valid UTF-8 and decode to one character each.
pub proof fn lemma_ascii_utf8(s: Seq<u8>)
    requires
        all_ascii(s),
    ensures
        valid_utf8(s),
        decode_utf8(s) == ascii_chars(s),
    decreases s.len(),
{
    if s.len() != 0 {
        let rest = s.subrange(1, s.len() as int);
        assert(all_ascii(rest)) by {
            assert forall|i: int| 0 <= i < rest.len() implies #[trigger] rest[i] < 128 by {
                assert(rest[i] == s[i + 1]);
            }
        }
        lemma_ascii_utf8(rest);
        let b = s[0];
        assert(b < 128);
        assert(b & 0x7f == b) by (bit_vector)
            requires
                b < 128u8,
        ;
        assert(pop_first_scalar(s) == rest);
        assert(decode_utf8(s) =~= ascii_chars(s)) by {
            assert(decode_first_scalar(s) == s[0] as u32);
            assert(decode_utf8(s) == seq![(s[0] as u32) as char] + decode_utf8(rest));
        }
    } else {
        assert(decode_utf8(s) =~= ascii_chars(s));
    }
}

/// The decimal digits of `b`, as ASCII, without leading zeros.
pub open spec fn decimal(b: u8) -> Seq<u8> {
    if b < 10 {
        seq![(48 + b) as u8]
    } else if b < 100 {
        seq![(48 + b / 10) as u8, (48 + b % 10) as u8]
    } else {
        seq![(48 + b / 100) as u8, (48 + b / 10 % 10) as u8, (48 + b % 10) as u8]
    }
}

/// The numbers of `d` in decimal, separated by `", "`.
pub open spec fn number_list(d: Seq<u8>) -> Seq<u8>
    decreases d.len(),
{
    if d.len() == 0 {
        Seq::empty()
    } else if d.len() == 1 {
        decimal(d[0])
    } else {
        number_list(d.drop_last()) + seq![44u8, 32u8] + decimal(d.last())
    }
}

/// `d` written as a bracketed list of decimal numbers, e.g. `[1, 20, 255]`.
pub open spec fn bracketed_list(d: Seq<u8>) -> Seq<u8> {
    seq![91u8] + number_list(d) + seq![93u8]
}

/// Appends the decimal digits of `b`.
pub(crate) fn push_decimal(out: &mut Vec<u8>, b: u8)
    requires
        all_ascii(old(out)@),
    ensures
        final(out)@ == old(out)@ + decimal(b),
        all_ascii(final(out)@),
{
    if b < 10 {
        out.push(48 + b);
    } else if b < 100 {
        out.push(48 + b / 10);
        out.push(48 + b % 10);
    } else {
        out.push(48 + b / 100);
        out.push(48 + b / 10 % 10);
        out.push(48 + b % 10);
    }
    assert(final(out)@ =~= old(out)@ + decimal(b));
}

/// Appends `d` as a bracketed list of decimal numbers.
pub(crate) fn push_bracketed_list(out: &mut Vec<u8>, d: &[u8])
    requires
        all_ascii(old(out)@),
    ensures
        final(out)@ == old(out)@ + bracketed_list(d@),
        all_ascii(final(out)@),
{
    let ghost start = out@;
    out.push(91u8);
    let mut i: usize = 0;
    while i < d.len()
        invariant
            i <= d@.len(),
            all_ascii(out@),
            out@ == start + seq![91u8] + number_list(d@.subrange(0, i as int)),
        decreases d@.len() - i,
    {
        let ghost before = out@;
        if i > 0 {
            out.push(44u8);
            out.push(32u8);
        }
        push_decimal(out, d[i]);
        proof {
            let p = d@.subrange(0, i + 1);
            assert(p.drop_last() =~= d@.subrange(0, i as int));
            assert(p.last() == d@[i as int]);
            if i == 0 {
                assert(number_list(d@.subrange(0, 0)) =~= Seq::<u8>::empty());
                assert(out@ =~= start + seq![91u8] + number_list(p));
            } else {
                assert(out@ =~= start + seq![91u8] + number_list(p));
            }
        }
        i = i + 1;
    }
    out.push(93u8);
    assert(d@.subrange(0, i as int) =~= d@);
    assert(final(out)@ =~= start + bracketed_list(d@));
}

/// Relies on `String::from_utf8`: `Ok` exactly when the bytes are valid
/// UTF-8, and then the string decoded from them.
#[verifier::external_body]
pub(crate) fn string_from_utf8(bytes: Vec<u8>) -> (r: Option<String>)
    ensures
        r.is_some() <==> valid_utf8(bytes@),
        r matches Some(s) ==> s@ == decode_utf8(bytes@),
{
    String::from_utf8(bytes).ok()
}

/// The string that an ASCII byte sequence spells.
pub(crate) fn ascii_string(bytes: Vec<u8>) -> (r: String)
    requires
        all_ascii(bytes@),
    ensures
        r@ == ascii_chars(bytes@),
{
    proof {
        lemma_ascii_utf8(bytes@);
    }
    match string_from_utf8(bytes) {
        Some(s) => s,
        None => String::new(),
    }
}

} // verus!
