//! The manifest-record grammar: a digest of the algorithm's exact width,
//! two literal separating spaces, and the path reaching to the end of the
//! line. The same grammar is also handed to the outside regex engine for
//! callers that want a compiled pattern.
use crate::hashing::Algorithm;
use crate::options::Options;
use vstd::prelude::*;

verus! {

/// A hexadecimal digit, either case.
pub open spec fn is_hex_digit(c: char) -> bool {
    ('0' <= c && c <= '9') || ('a' <= c && c <= 'f') || ('A' <= c && c <= 'F')
}

/// Whether the record grammar for digest width `w` matches `line` starting
/// at position `s`: `w` hex digits, two literal spaces, then a rest that
/// runs to the end of the line without a newline.
pub open spec fn matches_at(line: Seq<char>, w: nat, s: int) -> bool {
    &&& 0 <= s
    &&& s + w + 2 <= line.len()
    &&& forall|j: int| s <= j < s + w ==> is_hex_digit(#[trigger] line[j])
    &&& line[s + w] == ' '
    &&& line[s + w + 1] == ' '
    &&& forall|j: int| s + w + 2 <= j < line.len() ==> #[trigger] line[j] != '\n'
}

/// The leftmost position at or after `s` where the grammar matches.
pub open spec fn match_from(line: Seq<char>, w: nat, s: int) -> Option<int>
    decreases line.len() - s,
{
    if s < 0 || s + w + 2 > line.len() {
        None
    } else if matches_at(line, w, s) {
        Some(s)
    } else {
        match_from(line, w, s + 1)
    }
}

/// The two captured groups of the leftmost match: the digest and the path.
pub open spec fn spec_captures(line: Seq<char>, w: nat) -> Option<(Seq<char>, Seq<char>)> {
    match match_from(line, w, 0) {
        Some(s) => Some(
            (line.subrange(s, s + w), line.subrange(s + w + 2, line.len() as int)),
        ),
        None => None,
    }
}

fn is_hex_digit_exec(c: char) -> (r: bool)
    ensures
        r == is_hex_digit(c),
{
    ('0' <= c && c <= '9') || ('a' <= c && c <= 'f') || ('A' <= c && c <= 'F')
}

/// Extracts (digest, path) from a manifest line, by the same leftmost-match
/// rule the compiled pattern uses.
pub fn match_manifest_line(line: &str, alg: Algorithm) -> (r: Option<(String, String)>)
    ensures
        ({
            let w = 2 * alg.spec_output_len();
            match r {
                Some(p) => spec_captures(line@, w) == Some((p.0@, p.1@)),
                None => spec_captures(line@, w) is None,
            }
        }),
{
    let w = alg.hex_width();
    let n = line.unicode_len();
    if n < w + 2 {
        return None;
    }
    let mut s: usize = 0;
    while s <= n - w - 2
        invariant
            w == 2 * alg.spec_output_len(),
            w + 2 <= n,
            n == line@.len(),
            s <= n,
            match_from(line@, w as nat, 0) == match_from(line@, w as nat, s as int),
        decreases n - s,
    {
        proof {
            assert(s + w + 2 <= n);
        }
        let mut all_hex = true;
        let mut j: usize = s;
        while j < s + w
            invariant
                s <= j <= s + w,
                s + w + 2 <= n,
                n == line@.len(),
                all_hex == (forall|k: int| s <= k < j ==> is_hex_digit(#[trigger] line@[k])),
            decreases s + w - j,
        {
            if !is_hex_digit_exec(line.get_char(j)) {
                all_hex = false;
            }
            j = j + 1;
        }
        if all_hex && line.get_char(s + w) == ' ' && line.get_char(s + w + 1) == ' ' {
            let nl = crate::text::find_char_from(line, s + w + 2, '\n');
            match nl {
                None => {
                    proof {
                        assert(matches_at(line@, w as nat, s as int));
                        assert(match_from(line@, w as nat, s as int) == Some(s as int));
                    }
                    let digest = line.substring_char(s, s + w).to_owned();
                    let path = line.substring_char(s + w + 2, n).to_owned();
                    return Some((digest, path));
                },
                Some(_) => {
                    proof {
                        assert(!matches_at(line@, w as nat, s as int));
                    }
                },
            }
        } else {
            proof {
                assert(!matches_at(line@, w as nat, s as int));
            }
        }
        s = s + 1;
    }
    proof {
        assert(match_from(line@, w as nat, s as int) is None);
    }
    None
}

/// The exact pattern text handed to the regex engine for each algorithm.
pub open spec fn spec_pattern_of(alg: Algorithm) -> Seq<char> {
    match alg {
        Algorithm::Sha1 => r"([[:xdigit:]]{40})  (.*)$"@,
        Algorithm::Md5 => r"([[:xdigit:]]{32})  (.*)$"@,
        Algorithm::Sha224 => r"([[:xdigit:]]{56})  (.*)$"@,
        Algorithm::Sha256 => r"([[:xdigit:]]{64})  (.*)$"@,
        Algorithm::Sha384 => r"([[:xdigit:]]{96})  (.*)$"@,
        Algorithm::Sha512 => r"([[:xdigit:]]{128})  (.*)$"@,
    }
}

/// Whether `p` is one of the six fixed digest-line patterns.
pub open spec fn is_digest_line_pattern(p: Seq<char>) -> bool {
    exists|alg: Algorithm| p == spec_pattern_of(alg)
}

#[verifier::external_type_specification]
#[verifier::external_body]
pub struct ExRegex(regex::Regex);

/// Relies on `regex::Regex::new`: compiling a valid pattern succeeds, and
/// each of the six fixed digest-line patterns is valid syntax, well under
/// the compiler's size limit.
#[verifier::external_body]
fn compile_digest_pattern(pat: &str) -> (r: regex::Regex)
    requires
        is_digest_line_pattern(pat@),
{
    regex::Regex::new(pat).unwrap()
}

/// The pattern text for an algorithm.
fn pattern_of(alg: Algorithm) -> (r: &'static str)
    ensures
        r@ == spec_pattern_of(alg),
{
    match alg {
        Algorithm::Sha1 => r"([[:xdigit:]]{40})  (.*)$",
        Algorithm::Md5 => r"([[:xdigit:]]{32})  (.*)$",
        Algorithm::Sha224 => r"([[:xdigit:]]{56})  (.*)$",
        Algorithm::Sha256 => r"([[:xdigit:]]{64})  (.*)$",
        Algorithm::Sha384 => r"([[:xdigit:]]{96})  (.*)$",
        Algorithm::Sha512 => r"([[:xdigit:]]{128})  (.*)$",
    }
}

/// Builds the compiled pattern that extracts digest and path from a
/// manifest line, or a configuration error for an unrecognized algorithm.
pub fn regex_from_opts(opts: &Options) -> (r: Result<regex::Regex, &'static str>)
    ensures
        r is Ok <==> Algorithm::spec_from_name(opts.algorithm@) is Some,
        r is Err ==> r->Err_0@ == "Could not recognize hashing algorithm"@,
{
    match Algorithm::from_name(opts.algorithm.as_str()) {
        Some(alg) => {
            let pat = pattern_of(alg);
            proof {
                assert(is_digest_line_pattern(pat@)) by {
                    assert(pat@ == spec_pattern_of(alg));
                }
            }
            Ok(compile_digest_pattern(pat))
        },
        None => Err("Could not recognize hashing algorithm"),
    }
}

/// The record grammar loses nothing: a digest of the exact expected width
/// and a path free of newlines are re-extracted unchanged from the line
/// they render to.
pub proof fn lemma_grammar_round_trip(digest: Seq<char>, path: Seq<char>, alg: Algorithm)
    requires
        digest.len() == 2 * alg.spec_output_len(),
        forall|i: int| 0 <= i < digest.len() ==> is_hex_digit(#[trigger] digest[i]),
        forall|i: int| 0 <= i < path.len() ==> #[trigger] path[i] != '\n',
    ensures
        spec_captures(digest + "  "@ + path, 2 * alg.spec_output_len()) == Some(
            (digest, path),
        ),
{
    reveal_strlit("  ");
    let line = digest + "  "@ + path;
    let w = 2 * alg.spec_output_len();
    assert(line.len() == digest.len() + 2 + path.len());
    assert(forall|j: int| 0 <= j < w ==> #[trigger] line[j] == digest[j]);
    assert(line[w as int] == ' ' && line[w as int + 1] == ' ');
    assert(forall|j: int| w + 2 <= j < line.len() ==> #[trigger] line[j] == path[j - w - 2]);
    assert(matches_at(line, w, 0));
    assert(match_from(line, w, 0) == Some(0int));
    assert(line.subrange(0, w as int) =~= digest);
    assert(line.subrange(w as int + 2, line.len() as int) =~= path);
}

} // verus!
