//! Identifiers of streams and requests.

use vstd::prelude::*;

verus! {

/// Number of symbols in an identifier.
pub const ID_LEN: usize = 21;

/// A symbol that may appear in an identifier: `A-Z`, `a-z`, `0-9`, `_`, `-`.
pub open spec fn is_url_safe(c: char) -> bool {
    ||| ('a' <= c && c <= 'z')
    ||| ('A' <= c && c <= 'Z')
    ||| ('0' <= c && c <= '9')
    ||| c == '_'
    ||| c == '-'
}

/// A well-formed identifier: 21 URL-safe symbols.
pub open spec fn is_identifier(s: Seq<char>) -> bool {
    &&& s.len() == ID_LEN
    &&& forall|i: int| 0 <= i < s.len() ==> is_url_safe(#[trigger] s[i])
}

/// Draws `size` random URL-safe symbols with `nanoid::format`, fed by
/// `nanoid::rngs::default` and the 64-symbol `nanoid::alphabet::SAFE` (what
/// `nanoid!(size)` expands to). With an alphabet of a power-of-two size the
/// source pushes exactly one symbol of the alphabet per requested position,
/// so the result holds `size` symbols, each URL-safe; which symbols is left
/// unsaid, since they come from the operating system's random source (whose
/// failure makes `StdRng::from_os_rng` panic).
#[verifier::external_body]
fn random_symbols(size: usize) -> (id: String)
    ensures
        id@.len() == size,
        forall|i: int| 0 <= i < id@.len() ==> is_url_safe(#[trigger] id@[i]),
{
    nanoid::format(nanoid::rngs::default, &nanoid::alphabet::SAFE, size)
}

/// A fresh random identifier of 21 URL-safe symbols.
pub(crate) fn random_identifier() -> (id: String)
    ensures
        is_identifier(id@),
{
    random_symbols(ID_LEN)
}

} // verus!
