//! Compiled text patterns.  This is the trusted boundary to the regex
//! crate: a pattern is an opaque matcher whose behaviour is named, not
//! restated — [`regex_valid`] names whether a pattern text compiles, and
//! [`regex_find`] names the leftmost match and its captured value.

use vstd::prelude::*;

verus! {

#[verifier::external_type_specification]
#[verifier::external_body]
pub struct ExRegex(regex::bytes::Regex);

/// Whether the pattern text `pat` is well formed, that is, whether compiling
/// it succeeds.  Compilation is a function of the pattern text alone.
pub uninterp spec fn regex_valid(pat: Seq<char>) -> bool;

/// The leftmost match of the compiled pattern `pat` in the byte text `hay`:
/// the match's byte range `(start, end)` and the bytes of the first
/// participating capture group (empty when no group participated).  The
/// match is a function of the pattern text and the haystack alone.
pub uninterp spec fn regex_find(pat: Seq<char>, hay: Seq<u8>) -> Option<(usize, usize, Seq<u8>)>;

/// A compiled pattern, kept together with its source text; the source is
/// what the contracts speak about.
pub struct Pattern {
    src: String,
    re: regex::bytes::Regex,
}

impl Pattern {
    /// The pattern's source text.
    pub closed spec fn source(&self) -> Seq<char> {
        self.src@
    }

    /// Relies on regex::bytes::Regex::new: whether a pattern compiles
    /// depends on the pattern text alone.
    #[verifier::external_body]
    pub fn compile(src: &str) -> (r: Option<Pattern>)
        ensures
            (r is Some) == regex_valid(src@),
            r matches Some(p) ==> p.source() == src@,
    {
        match regex::bytes::Regex::new(src) {
            Ok(re) => Some(Pattern { src: src.to_string(), re }),
            Err(_) => None,
        }
    }

    /// Relies on regex::bytes::Regex::captures: the leftmost match and its
    /// capture groups depend only on the pattern and the haystack, and the
    /// match offsets are byte indices with `start <= end <= hay.len()`.
    /// The value handed back is the first participating capture group
    /// (empty when none participated).
    #[verifier::external_body]
    pub fn find(&self, hay: &[u8]) -> (r: Option<(usize, usize, Vec<u8>)>)
        ensures
            match r {
                Some((s, e, v)) => regex_find(self.source(), hay@) == Some((s, e, v@)) && s <= e
                    && e <= hay@.len(),
                None => regex_find(self.source(), hay@) is None,
            },
    {
        let caps = self.re.captures(hay)?;
        let m = caps.get(0).unwrap();
        let value = caps
            .iter()
            .skip(1)
            .flatten()
            .next()
            .map(|g| g.as_bytes().to_vec())
            .unwrap_or_default();
        Some((m.start(), m.end(), value))
    }
}

} // verus!
