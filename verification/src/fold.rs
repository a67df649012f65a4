use vstd::prelude::*;

verus! {

use vstd::utf8::is_ascii_chars;

/// The ASCII transliteration that `deunicode::deunicode` computes for a
/// string: diacritics stripped, common Latin-extended letters mapped to base
/// letters.  The exact table is large, so the result is only named here; the
/// trusted wrapper below ties the name to the call.
pub uninterp spec fn deunicode_of(s: Seq<char>) -> Seq<char>;

/// `s` with every character outside the ASCII range replaced.  The named
/// transliteration is ASCII already (the wrapper below guarantees it), so on
/// it this is the identity; it only makes ASCII-ness of `folded` a matter of
/// definition rather than of trust.
pub open spec fn ascii_clamped(s: Seq<char>) -> Seq<char> {
    Seq::new(s.len(), |i| if '\0' <= s[i] && s[i] <= '\u{7f}' { s[i] } else { '?' })
}

/// A query or dictionary key as the match engine sees it: kept as is when it
/// is pure ASCII, otherwise transliterated to ASCII.
pub open spec fn folded(s: Seq<char>) -> Seq<char> {
    if is_ascii_chars(s) {
        s
    } else {
        ascii_clamped(deunicode_of(s))
    }
}

/// Every folded string is ASCII.
pub proof fn lemma_folded_is_ascii(s: Seq<char>)
    ensures
        is_ascii_chars(folded(s)),
{
    if !is_ascii_chars(s) {
        let c = ascii_clamped(deunicode_of(s));
        assert forall|i| 0 <= i < c.len() implies '\0' <= #[trigger] c[i] <= '\u{7f}' by {
            let d = deunicode_of(s)[i];
            assert(c[i] == (if '\0' <= d && d <= '\u{7f}' {
                d
            } else {
                '?'
            }));
        }
    }
}

/// Folding is idempotent: the fold of an already folded string is itself.
/// This is what makes a query with diacritics equivalent to its ASCII fold.
pub proof fn lemma_folded_idempotent(s: Seq<char>)
    ensures
        folded(folded(s)) == folded(s),
{
    lemma_folded_is_ascii(s);
}

/// Relies on `deunicode::deunicode`: the result is a function of the input
/// characters alone, and the crate guarantees that every character of the
/// result is ASCII.
#[verifier::external_body]
fn deunicode_str(s: &String) -> (r: String)
    ensures
        r@ == deunicode_of(s@),
        is_ascii_chars(r@),
{
    deunicode::deunicode(s.as_str())
}

/// Folds a string to the ASCII form the match engine works on: the string
/// itself when it is pure ASCII, its transliteration otherwise.
pub fn fold_to_ascii(s: &String) -> (r: String)
    ensures
        r@ == folded(s@),
        is_ascii_chars(r@),
{
    if s.is_ascii() {
        s.clone()
    } else {
        let r = deunicode_str(s);
        proof {
            assert(ascii_clamped(r@) =~= r@);
        }
        r
    }
}

} // verus!

