//! A static table of ASCII mnemonic aliases for single Unicode glyphs:
//! operators, the Greek alphabet, currency signs and unit symbols. A lookup
//! matches the whole word, never a prefix, and yields the first match.

use vstd::prelude::*;

verus! {

use crate::order::str_eq;

/// The glyph registered for a mnemonic alias, if the table holds the word.
pub open spec fn spec_unicode_glyph(w: Seq<char>) -> Option<Seq<char>> {
    if w == "pm"@ {
        Some("\u{00b1}"@)
    } else if w == "cdot"@ {
        Some("\u{22c5}"@)
    } else if w == "times"@ {
        Some("\u{00d7}"@)
    } else if w == "div"@ {
        Some("\u{00f7}"@)
    } else if w == "to"@ {
        Some("\u{2192}"@)
    } else if w == "rightarrow"@ {
        Some("\u{2192}"@)
    } else if w == "ge"@ {
        Some("\u{2265}"@)
    } else if w == "le"@ {
        Some("\u{2264}"@)
    } else if w == "dots"@ {
        Some("\u{2026}"@)
    } else if w == "Gamma"@ {
        Some("\u{0393}"@)
    } else if w == "Delta"@ {
        Some("\u{0394}"@)
    } else if w == "Theta"@ {
        Some("\u{0398}"@)
    } else if w == "Lambda"@ {
        Some("\u{039b}"@)
    } else if w == "Pi"@ {
        Some("\u{03a0}"@)
    } else if w == "Sigma"@ {
        Some("\u{03a3}"@)
    } else if w == "Phi"@ {
        Some("\u{03a6}"@)
    } else if w == "Psi"@ {
        Some("\u{03a8}"@)
    } else if w == "Omega"@ {
        Some("\u{03a9}"@)
    } else if w == "alpha"@ {
        Some("\u{03b1}"@)
    } else if w == "beta"@ {
        Some("\u{03b2}"@)
    } else if w == "gamma"@ {
        Some("\u{03b3}"@)
    } else if w == "delta"@ {
        Some("\u{03b4}"@)
    } else if w == "epsilon"@ {
        Some("\u{03f5}"@)
    } else if w == "varepsilon"@ {
        Some("\u{03b5}"@)
    } else if w == "zeta"@ {
        Some("\u{03b6}"@)
    } else if w == "eta"@ {
        Some("\u{03b7}"@)
    } else if w == "theta"@ {
        Some("\u{03b8}"@)
    } else if w == "iota"@ {
        Some("\u{03b9}"@)
    } else if w == "kappa"@ {
        Some("\u{03ba}"@)
    } else if w == "lambda"@ {
        Some("\u{03bb}"@)
    } else if w == "mu"@ {
        Some("\u{03bc}"@)
    } else if w == "nu"@ {
        Some("\u{03bd}"@)
    } else if w == "xi"@ {
        Some("\u{03be}"@)
    } else if w == "pi"@ {
        Some("\u{03c0}"@)
    } else if w == "rho"@ {
        Some("\u{03c1}"@)
    } else if w == "sigma"@ {
        Some("\u{03c3}"@)
    } else if w == "tau"@ {
        Some("\u{03c4}"@)
    } else if w == "upsilon"@ {
        Some("\u{03c5}"@)
    } else if w == "phi"@ {
        Some("\u{03d5}"@)
    } else if w == "varphi"@ {
        Some("\u{03c6}"@)
    } else if w == "chi"@ {
        Some("\u{03c7}"@)
    } else if w == "psi"@ {
        Some("\u{03c8}"@)
    } else if w == "omega"@ {
        Some("\u{03c9}"@)
    } else if w == "euro"@ {
        Some("\u{20ac}"@)
    } else if w == "pound"@ {
        Some("\u{00a3}"@)
    } else if w == "yen"@ {
        Some("\u{00a5}"@)
    } else if w == "micro"@ {
        Some("\u{00b5}"@)
    } else if w == "degree"@ {
        Some("\u{00b0}"@)
    } else if w == "ohm"@ {
        Some("\u{03a9}"@)
    } else if w == "percent"@ {
        Some("%"@)
    } else if w == "hbar"@ {
        Some("\u{210f}"@)
    } else {
        None
    }
}

/// The single-glyph replacement registered for a word, or nothing when the
/// word is no registered alias.
pub fn get_unicode_completion(word: &str) -> (r: Option<String>)
    ensures
        r.deep_view() == spec_unicode_glyph(word@),
{
    if str_eq(word, "pm") {
        Some(String::from_str("\u{00b1}"))
    } else if str_eq(word, "cdot") {
        Some(String::from_str("\u{22c5}"))
    } else if str_eq(word, "times") {
        Some(String::from_str("\u{00d7}"))
    } else if str_eq(word, "div") {
        Some(String::from_str("\u{00f7}"))
    } else if str_eq(word, "to") {
        Some(String::from_str("\u{2192}"))
    } else if str_eq(word, "rightarrow") {
        Some(String::from_str("\u{2192}"))
    } else if str_eq(word, "ge") {
        Some(String::from_str("\u{2265}"))
    } else if str_eq(word, "le") {
        Some(String::from_str("\u{2264}"))
    } else if str_eq(word, "dots") {
        Some(String::from_str("\u{2026}"))
    } else if str_eq(word, "Gamma") {
        Some(String::from_str("\u{0393}"))
    } else if str_eq(word, "Delta") {
        Some(String::from_str("\u{0394}"))
    } else if str_eq(word, "Theta") {
        Some(String::from_str("\u{0398}"))
    } else if str_eq(word, "Lambda") {
        Some(String::from_str("\u{039b}"))
    } else if str_eq(word, "Pi") {
        Some(String::from_str("\u{03a0}"))
    } else if str_eq(word, "Sigma") {
        Some(String::from_str("\u{03a3}"))
    } else if str_eq(word, "Phi") {
        Some(String::from_str("\u{03a6}"))
    } else if str_eq(word, "Psi") {
        Some(String::from_str("\u{03a8}"))
    } else if str_eq(word, "Omega") {
        Some(String::from_str("\u{03a9}"))
    } else if str_eq(word, "alpha") {
        Some(String::from_str("\u{03b1}"))
    } else if str_eq(word, "beta") {
        Some(String::from_str("\u{03b2}"))
    } else if str_eq(word, "gamma") {
        Some(String::from_str("\u{03b3}"))
    } else if str_eq(word, "delta") {
        Some(String::from_str("\u{03b4}"))
    } else if str_eq(word, "epsilon") {
        Some(String::from_str("\u{03f5}"))
    } else if str_eq(word, "varepsilon") {
        Some(String::from_str("\u{03b5}"))
    } else if str_eq(word, "zeta") {
        Some(String::from_str("\u{03b6}"))
    } else if str_eq(word, "eta") {
        Some(String::from_str("\u{03b7}"))
    } else if str_eq(word, "theta") {
        Some(String::from_str("\u{03b8}"))
    } else if str_eq(word, "iota") {
        Some(String::from_str("\u{03b9}"))
    } else if str_eq(word, "kappa") {
        Some(String::from_str("\u{03ba}"))
    } else if str_eq(word, "lambda") {
        Some(String::from_str("\u{03bb}"))
    } else if str_eq(word, "mu") {
        Some(String::from_str("\u{03bc}"))
    } else if str_eq(word, "nu") {
        Some(String::from_str("\u{03bd}"))
    } else if str_eq(word, "xi") {
        Some(String::from_str("\u{03be}"))
    } else if str_eq(word, "pi") {
        Some(String::from_str("\u{03c0}"))
    } else if str_eq(word, "rho") {
        Some(String::from_str("\u{03c1}"))
    } else if str_eq(word, "sigma") {
        Some(String::from_str("\u{03c3}"))
    } else if str_eq(word, "tau") {
        Some(String::from_str("\u{03c4}"))
    } else if str_eq(word, "upsilon") {
        Some(String::from_str("\u{03c5}"))
    } else if str_eq(word, "phi") {
        Some(String::from_str("\u{03d5}"))
    } else if str_eq(word, "varphi") {
        Some(String::from_str("\u{03c6}"))
    } else if str_eq(word, "chi") {
        Some(String::from_str("\u{03c7}"))
    } else if str_eq(word, "psi") {
        Some(String::from_str("\u{03c8}"))
    } else if str_eq(word, "omega") {
        Some(String::from_str("\u{03c9}"))
    } else if str_eq(word, "euro") {
        Some(String::from_str("\u{20ac}"))
    } else if str_eq(word, "pound") {
        Some(String::from_str("\u{00a3}"))
    } else if str_eq(word, "yen") {
        Some(String::from_str("\u{00a5}"))
    } else if str_eq(word, "micro") {
        Some(String::from_str("\u{00b5}"))
    } else if str_eq(word, "degree") {
        Some(String::from_str("\u{00b0}"))
    } else if str_eq(word, "ohm") {
        Some(String::from_str("\u{03a9}"))
    } else if str_eq(word, "percent") {
        Some(String::from_str("%"))
    } else if str_eq(word, "hbar") {
        Some(String::from_str("\u{210f}"))
    } else {
        None
    }
}

} // verus!
