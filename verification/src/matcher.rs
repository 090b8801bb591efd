//! The fuzzy matching predicate used by the search operations: a target
//! matches a query when, after lowercasing both, the query occurs as a
//! contiguous substring of the target, or some whitespace-delimited token
//! of the query occurs as a substring of some token of the target.

use vstd::prelude::*;

verus! {

/// `q` occurs as a contiguous subsequence of `t`.
pub open spec fn is_substring(q: Seq<char>, t: Seq<char>) -> bool {
    exists|i: int| 0 <= i && i + q.len() <= t.len() && #[trigger] t.subrange(i, i + q.len()) == q
}

/// The empty sequence occurs in every sequence.
pub proof fn lemma_empty_is_substring(q: Seq<char>, t: Seq<char>)
    requires
        q.len() == 0,
    ensures
        is_substring(q, t),
{
    let i: int = 0;
    assert(t.subrange(i, i + q.len()) =~= q);
}

/// The lowercase form of a character sequence, as `str::to_lowercase`
/// computes it.
pub uninterp spec fn lower_of(s: Seq<char>) -> Seq<char>;

/// The whitespace-delimited tokens of a character sequence, as
/// `str::split_whitespace` computes them.
pub uninterp spec fn tokens_of(s: Seq<char>) -> Seq<Seq<char>>;

/// Relies on str::to_lowercase: the result depends on the characters alone,
/// and lowercasing the empty string yields the empty string.
#[verifier::external_body]
fn lowercase(s: &str) -> (r: String)
    ensures
        r@ == lower_of(s@),
        s@.len() == 0 ==> r@.len() == 0,
{
    s.to_lowercase()
}

/// Relies on str::contains with a &str pattern: true exactly when the
/// pattern occurs as a contiguous substring (a byte-level match inside
/// valid UTF-8 always falls on character boundaries).
#[verifier::external_body]
fn contains_substring(t: &str, q: &str) -> (r: bool)
    ensures
        r == is_substring(q@, t@),
{
    t.contains(q)
}

/// Relies on str::split_whitespace: the tokens depend on the characters
/// alone.
#[verifier::external_body]
fn whitespace_tokens(s: &str) -> (r: Vec<String>)
    ensures
        r.deep_view() == tokens_of(s@),
{
    s.split_whitespace().map(|t| t.to_owned()).collect()
}

/// Some token of `qt` occurs as a substring of some token of `tt`.
pub open spec fn token_pair_match(qt: Seq<Seq<char>>, tt: Seq<Seq<char>>) -> bool {
    exists|i: int, j: int|
        0 <= i < qt.len() && 0 <= j < tt.len() && is_substring(qt[i], tt[j])
}

/// The matching predicate: whole-string containment after lowercasing,
/// or token-level containment between the lowercased tokenizations.
pub open spec fn spec_fuzzy_match(query: Seq<char>, target: Seq<char>) -> bool {
    is_substring(lower_of(query), lower_of(target)) || token_pair_match(
        tokens_of(lower_of(query)),
        tokens_of(lower_of(target)),
    )
}

/// Decides whether `target` matches `query`: case-insensitive substring
/// containment, then per-token containment. An empty query matches every
/// target.
pub fn fuzzy_match(query: &str, target: &str) -> (r: bool)
    ensures
        r == spec_fuzzy_match(query@, target@),
        query@.len() == 0 ==> r,
{
    let lq = lowercase(query);
    let lt = lowercase(target);
    if contains_substring(lt.as_str(), lq.as_str()) {
        return true;
    }
    proof {
        if query@.len() == 0 {
            lemma_empty_is_substring(lq@, lt@);
        }
    }
    let q_tokens = whitespace_tokens(lq.as_str());
    let t_tokens = whitespace_tokens(lt.as_str());
    let ghost qts: Seq<Seq<char>> = tokens_of(lower_of(query@));
    let ghost tts: Seq<Seq<char>> = tokens_of(lower_of(target@));
    let mut i: usize = 0;
    while i < q_tokens.len()
        invariant
            qts == tokens_of(lower_of(query@)),
            tts == tokens_of(lower_of(target@)),
            q_tokens.deep_view() == qts,
            t_tokens.deep_view() == tts,
            i <= q_tokens.len(),
            forall|a: int, b: int|
                0 <= a < i && 0 <= b < tts.len() ==> !is_substring(qts[a], tts[b]),
        decreases q_tokens.len() - i,
    {
        let mut j: usize = 0;
        while j < t_tokens.len()
            invariant
                qts == tokens_of(lower_of(query@)),
                tts == tokens_of(lower_of(target@)),
                q_tokens.deep_view() == qts,
                t_tokens.deep_view() == tts,
                i < q_tokens.len(),
                j <= t_tokens.len(),
                forall|a: int, b: int|
                    0 <= a < i && 0 <= b < tts.len() ==> !is_substring(qts[a], tts[b]),
                forall|b: int| 0 <= b < j ==> !is_substring(qts[i as int], tts[b]),
            decreases t_tokens.len() - j,
        {
            if contains_substring(t_tokens[j].as_str(), q_tokens[i].as_str()) {
                proof {
                    assert(q_tokens.deep_view()[i as int] == q_tokens@[i as int]@);
                    assert(t_tokens.deep_view()[j as int] == t_tokens@[j as int]@);
                    assert(is_substring(
                        tokens_of(lower_of(query@))[i as int],
                        tokens_of(lower_of(target@))[j as int],
                    ));
                    assert(token_pair_match(
                        tokens_of(lower_of(query@)),
                        tokens_of(lower_of(target@)),
                    ));
                }
                return true;
            }
            j += 1;
        }
        i += 1;
    }
    false
}

} // verus!
