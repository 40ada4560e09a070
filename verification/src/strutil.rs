//! Small executable helpers over strings, verified against their
//! character-sequence views.

use vstd::prelude::*;

verus! {

/// Character-by-character equality of two string slices.
pub fn str_eq(a: &str, b: &str) -> (r: bool)
    ensures
        r == (a@ == b@),
{
    let alen = a.unicode_len();
    let blen = b.unicode_len();
    if alen != blen {
        assert(a@ != b@) by {
            assert(a@.len() != b@.len());
        }
        return false;
    }
    let mut i: usize = 0;
    while i < alen
        invariant
            0 <= i <= alen,
            alen == a@.len(),
            alen == b@.len(),
            forall|k: int| 0 <= k < i ==> a@[k] == b@[k],
        decreases alen - i,
    {
        if a.get_char(i) != b.get_char(i) {
            assert(a@ != b@) by {
                assert(a@[i as int] != b@[i as int]);
            }
            return false;
        }
        i = i + 1;
    }
    proof {
        assert(a@ =~= b@);
    }
    true
}

/// Whether a URL uses the mandatory HTTPS scheme: the download layer
/// refuses every other URL.
pub fn is_https_url(url: &str) -> (r: bool)
    ensures
        r == "https://"@.is_prefix_of(url@),
{
    proof {
        reveal_strlit("https://");
    }
    let n = url.unicode_len();
    if n < 8 {
        return false;
    }
    let r = url.get_char(0) == 'h' && url.get_char(1) == 't' && url.get_char(2) == 't'
        && url.get_char(3) == 'p' && url.get_char(4) == 's' && url.get_char(5) == ':'
        && url.get_char(6) == '/' && url.get_char(7) == '/';
    proof {
        if r {
            assert("https://"@ =~= url@.subrange(0, 8));
        } else {
            if "https://"@.is_prefix_of(url@) {
                assert(url@.subrange(0, 8) =~= "https://"@);
                assert forall|i: int| 0 <= i < 8 implies url@[i] == "https://"@[i] by {
                    assert(url@.subrange(0, 8)[i] == url@[i]);
                }
                assert(url@[0] == 'h' && url@[1] == 't' && url@[2] == 't' && url@[3] == 'p'
                    && url@[4] == 's' && url@[5] == ':' && url@[6] == '/' && url@[7] == '/');
                assert(false);
            }
        }
    }
    r
}

} // verus!
