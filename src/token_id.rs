use vstd::prelude::*;

verus! {

pub open spec fn is_upper_alnum(c: u8) -> bool {
    (65 <= c <= 90) || (48 <= c <= 57)
}

pub open spec fn is_lower_alnum(c: u8) -> bool {
    (97 <= c <= 122) || (48 <= c <= 57)
}

/// A token identifier is a ticker of three to ten upper-case letters or
/// digits, a dash, and six lower-case letters or digits.
pub open spec fn valid_token_identifier(s: Seq<u8>) -> bool {
    &&& 10 <= s.len() <= 17
    &&& forall|i: int| 0 <= i < s.len() - 7 ==> is_upper_alnum(#[trigger] s[i])
    &&& s[s.len() - 7] == 45u8
    &&& forall|i: int| s.len() - 6 <= i < s.len() ==> is_lower_alnum(#[trigger] s[i])
}

/// Whether `s` is a well-formed token identifier.
pub fn is_valid_token_identifier(s: &Vec<u8>) -> (r: bool)
    ensures
        r == valid_token_identifier(s@),
{
    let len = s.len();
    if len < 10 || len > 17 {
        return false;
    }
    let ticker_len = len - 7;
    let mut i: usize = 0;
    while i < ticker_len
        invariant
            len == s@.len(),
            10 <= len <= 17,
            ticker_len == len - 7,
            0 <= i <= ticker_len,
            forall|j: int| 0 <= j < i ==> is_upper_alnum(#[trigger] s@[j]),
        decreases ticker_len - i,
    {
        let c = s[i];
        if !((65 <= c && c <= 90) || (48 <= c && c <= 57)) {
            assert(!is_upper_alnum(s@[i as int]));
            return false;
        }
        i = i + 1;
    }
    if s[ticker_len] != 45u8 {
        return false;
    }
    let mut k: usize = len - 6;
    while k < len
        invariant
            len == s@.len(),
            10 <= len <= 17,
            len - 6 <= k <= len,
            forall|j: int| 0 <= j < s@.len() - 7 ==> is_upper_alnum(#[trigger] s@[j]),
            s@[s@.len() - 7] == 45u8,
            forall|j: int| s@.len() - 6 <= j < k ==> is_lower_alnum(#[trigger] s@[j]),
        decreases len - k,
    {
        let c = s[k];
        if !((97 <= c && c <= 122) || (48 <= c && c <= 57)) {
            assert(!is_lower_alnum(s@[k as int]));
            return false;
        }
        k = k + 1;
    }
    true
}

} // verus!
