//! Byte-level text helpers: decoding child output to text and trimming
//! surrounding whitespace, as the toolchain probe does to a version banner.
use vstd::prelude::*;
use vstd::utf8::{decode_utf8, valid_utf8};

verus! {

/// Relies on `String::from_utf8`: it returns the decoded text exactly when
/// the bytes are valid UTF-8, and refuses them otherwise.  vstd's own UTF-8
/// model (`valid_utf8`, `decode_utf8`) states what that means.
#[verifier::external_body]
pub fn bytes_to_string(bytes: Vec<u8>) -> (r: Option<String>)
    ensures
        match r {
            Some(s) => valid_utf8(bytes@) && s@ == decode_utf8(bytes@),
            None => !valid_utf8(bytes@),
        },
{
    match String::from_utf8(bytes) {
        Ok(s) => Some(s),
        Err(_) => None,
    }
}

/// The four ASCII whitespace bytes trimmed from a version banner.
pub open spec fn is_ascii_ws(b: u8) -> bool {
    b == 32u8 || b == 9u8 || b == 10u8 || b == 13u8
}

/// `s` without its leading whitespace bytes.
pub open spec fn trim_front(s: Seq<u8>) -> Seq<u8>
    decreases s.len(),
{
    if s.len() > 0 && is_ascii_ws(s.first()) {
        trim_front(s.drop_first())
    } else {
        s
    }
}

/// `s` without its trailing whitespace bytes.
pub open spec fn trim_back(s: Seq<u8>) -> Seq<u8>
    decreases s.len(),
{
    if s.len() > 0 && is_ascii_ws(s.last()) {
        trim_back(s.drop_last())
    } else {
        s
    }
}

/// `s` without leading and trailing whitespace bytes.
pub open spec fn trimmed(s: Seq<u8>) -> Seq<u8> {
    trim_back(trim_front(s))
}

/// Strips ASCII whitespace from both ends of `bytes`.
pub fn trim_ascii_ws(bytes: &[u8]) -> (r: Vec<u8>)
    ensures
        r@ == trimmed(bytes@),
{
    let n = bytes.len();
    let mut start: usize = 0;
    proof {
        assert(bytes@.skip(0) =~= bytes@);
    }
    while start < n && (bytes[start] == 32u8 || bytes[start] == 9u8 || bytes[start] == 10u8
        || bytes[start] == 13u8)
        invariant
            n == bytes@.len(),
            start <= n,
            trim_front(bytes@) == trim_front(bytes@.skip(start as int)),
        decreases n - start,
    {
        proof {
            let t = bytes@.skip(start as int);
            assert(t.first() == bytes@[start as int]);
            assert(t.drop_first() =~= bytes@.skip(start + 1));
        }
        start = start + 1;
    }
    proof {
        let t = bytes@.skip(start as int);
        if start < n {
            assert(t.first() == bytes@[start as int]);
            assert(!is_ascii_ws(t.first()));
        }
        assert(trim_front(bytes@) == t);
    }
    let mut end: usize = n;
    while end > start && (bytes[end - 1] == 32u8 || bytes[end - 1] == 9u8 || bytes[end - 1]
        == 10u8 || bytes[end - 1] == 13u8)
        invariant
            n == bytes@.len(),
            start <= end <= n,
            trim_front(bytes@) == bytes@.skip(start as int),
            trim_back(bytes@.skip(start as int)) == trim_back(
                bytes@.subrange(start as int, end as int),
            ),
        decreases end,
    {
        proof {
            let t = bytes@.subrange(start as int, end as int);
            assert(t.last() == bytes@[end - 1]);
            assert(t.drop_last() =~= bytes@.subrange(start as int, end - 1));
        }
        end = end - 1;
    }
    proof {
        let t = bytes@.subrange(start as int, end as int);
        if end > start {
            assert(t.last() == bytes@[end - 1]);
            assert(!is_ascii_ws(t.last()));
        }
        assert(bytes@.skip(start as int) =~= bytes@.subrange(start as int, n as int));
        assert(trimmed(bytes@) == t);
    }
    let mut r: Vec<u8> = Vec::new();
    let mut j: usize = start;
    while j < end
        invariant
            start <= j <= end <= n,
            n == bytes@.len(),
            r@ == bytes@.subrange(start as int, j as int),
        decreases end - j,
    {
        r.push(bytes[j]);
        proof {
            assert(r@ =~= bytes@.subrange(start as int, j + 1));
        }
        j = j + 1;
    }
    proof {
        assert(r@ == trimmed(bytes@));
    }
    r
}

} // verus!
